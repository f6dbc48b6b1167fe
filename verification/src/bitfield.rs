//! `#[bitfield]` and `#[derive(BitfieldSpecifier)]`.
//!
//! `#[bitfield]` turns a struct whose fields are `Specifier` types into a
//! byte array of the summed width, with a getter and a setter per field; a
//! field sits right after the one before it. `#[derive(BitfieldSpecifier)]`
//! makes a fieldless enum with a power-of-two number of variants usable as
//! such a field. This module decides what the generated code holds; the
//! caller writes it.
use crate::bits::{bit_at, bits_value, is_written, law_read_after_write, law_write_keeps_other_fields, law_zero_bytes_have_clear_bits, low_mask};
use crate::specifier::{is_int_width_for, next_multiple_of_8};
use crate::syntax::{is_ident, path_is_ident, ArgsModel, PathModel, TypeModel};
use crate::tokens::{append_chars, call_site, chars_of, copy_chars, copy_names, decimal, decimal_chars, names_view, unraw, unraw_chars, ErrorV, MacroError, SpanId};
use vstd::arithmetic::power2::pow2;
use vstd::prelude::*;

verus! {

/// The value of an attribute on a bit-field field, when it is written
/// `path = value`: an integer literal (its text and span), or anything else.
pub enum BitsValue {
    IntLiteral { text: Vec<char>, span: SpanId },
    Other,
}

/// An attribute on a field of a bit field: its path, the span of the whole
/// attribute, the span of what stands inside `#[...]`, and its value.
pub struct BitsAttr {
    pub path: PathModel,
    pub span: SpanId,
    pub meta_span: SpanId,
    pub value: BitsValue,
}

/// A named field of a `#[bitfield]` struct: its name, its type, the span of
/// the type, the span of the type's path (from its first to its last
/// segment) when it is a path type, and its attributes.
pub struct BitfieldFieldInput {
    pub ident: Vec<char>,
    pub ty: TypeModel,
    pub ty_span: SpanId,
    pub path_span: SpanId,
    pub attrs: Vec<BitsAttr>,
}

/// The check that a field's type has the width `#[bits = N]` states: the
/// literal `N` and its span.
pub struct SizeCheck {
    pub literal: Vec<char>,
    pub span: SpanId,
}

/// The value of a `SizeCheck`.
pub struct SizeCheckV {
    pub literal: Seq<char>,
    pub span: SpanId,
}

impl View for SizeCheck {
    type V = SizeCheckV;

    open spec fn view(&self) -> SizeCheckV {
        SizeCheckV { literal: self.literal@, span: self.span }
    }
}

/// The value of an optional `SizeCheck`.
pub open spec fn check_view(c: Option<SizeCheck>) -> Option<SizeCheckV> {
    match c {
        Some(c) => Some(c@),
        None => None,
    }
}

/// A field as the bit field sees it: its name, the name of its type, and
/// the width check its `#[bits = N]` asks for.
pub struct BitfieldField {
    pub ident: Vec<char>,
    pub ty: Vec<char>,
    pub size_check: Option<SizeCheck>,
}

/// The value of a `BitfieldField`.
pub struct BitfieldFieldV {
    pub ident: Seq<char>,
    pub ty: Seq<char>,
    pub size_check: Option<SizeCheckV>,
}

impl View for BitfieldField {
    type V = BitfieldFieldV;

    open spec fn view(&self) -> BitfieldFieldV {
        BitfieldFieldV { ident: self.ident@, ty: self.ty@, size_check: check_view(self.size_check) }
    }
}

/// The message for a field type that is not a path.
pub open spec fn unsupported_type_message() -> Seq<char> {
    "unsupported type"@
}

/// The message for a path type that is not a single identifier.
pub open spec fn not_an_ident_message() -> Seq<char> {
    "expected this path to be an identifier"@
}

/// The message for a second `#[bits = ...]`.
pub open spec fn bits_twice_message() -> Seq<char> {
    "bits already set"@
}

/// The message for a `#[bits ...]` that is not `#[bits = <integer>]`.
pub open spec fn expected_bits_message() -> Seq<char> {
    "expected bits = ..."@
}

/// The name of a field's type, which must be a single identifier: no
/// leading `::`, one segment, no generic arguments.
pub open spec fn field_type_name(f: BitfieldFieldInput) -> Result<Seq<char>, ErrorV> {
    match f.ty {
        TypeModel::Path { leading_colon, segments, .. } => if !leading_colon && segments@.len() == 1
            && segments@[0].args is Plain {
            Ok(segments@[0].ident@)
        } else {
            Err(ErrorV { span: f.path_span, message: not_an_ident_message() })
        },
        TypeModel::Other { .. } => Err(ErrorV { span: f.ty_span, message: unsupported_type_message() }),
    }
}

/// The width check after reading one more attribute of a field.
pub open spec fn bits_step(check: Option<SizeCheckV>, attr: BitsAttr) -> Result<Option<SizeCheckV>, ErrorV> {
    if !path_is_ident(attr.path, "bits"@) {
        Ok(check)
    } else if check is Some {
        Err(ErrorV { span: attr.span, message: bits_twice_message() })
    } else {
        match attr.value {
            BitsValue::IntLiteral { text, span } => Ok(Some(SizeCheckV { literal: text@, span })),
            BitsValue::Other => Err(ErrorV { span: attr.meta_span, message: expected_bits_message() }),
        }
    }
}

/// The width check the attributes of a field ask for, or the error in them.
pub open spec fn bits_config(attrs: Seq<BitsAttr>) -> Result<Option<SizeCheckV>, ErrorV>
    decreases attrs.len(),
{
    if attrs.len() == 0 {
        Ok(None)
    } else {
        match bits_config(attrs.drop_last()) {
            Err(e) => Err(e),
            Ok(check) => bits_step(check, attrs.last()),
        }
    }
}

/// What the bit field makes of a field: its name, type name and width
/// check, or the first error, the type being read before the attributes.
pub open spec fn bitfield_field_spec(f: BitfieldFieldInput) -> Result<BitfieldFieldV, ErrorV> {
    match field_type_name(f) {
        Err(e) => Err(e),
        Ok(ty) => match bits_config(f.attrs@) {
            Err(e) => Err(e),
            Ok(check) => Ok(BitfieldFieldV { ident: f.ident@, ty, size_check: check }),
        },
    }
}

/// The value of the answer of `BitfieldField::try_from`.
pub open spec fn field_answer_view(r: Result<BitfieldField, MacroError>) -> Result<BitfieldFieldV, ErrorV> {
    match r {
        Ok(f) => Ok(f@),
        Err(e) => Err(e@),
    }
}

proof fn lemma_bits_config_error(attrs: Seq<BitsAttr>, k: int, e: ErrorV)
    requires
        0 <= k <= attrs.len(),
        bits_config(attrs.subrange(0, k)) == Err::<Option<SizeCheckV>, ErrorV>(e),
    ensures
        bits_config(attrs) == Err::<Option<SizeCheckV>, ErrorV>(e),
    decreases attrs.len() - k,
{
    if k < attrs.len() {
        assert(attrs.subrange(0, k + 1).drop_last() =~= attrs.subrange(0, k));
        lemma_bits_config_error(attrs, k + 1, e);
    } else {
        assert(attrs.subrange(0, k) =~= attrs);
    }
}

/// The name of a field's type.
fn field_type_name_of(f: &BitfieldFieldInput) -> (r: Result<Vec<char>, MacroError>)
    ensures
        match r {
            Ok(name) => field_type_name(*f) == Ok::<Seq<char>, ErrorV>(name@),
            Err(e) => field_type_name(*f) == Err::<Seq<char>, ErrorV>(e@),
        },
{
    match &f.ty {
        TypeModel::Path { leading_colon, segments, .. } => {
            if !*leading_colon && segments.len() == 1 && matches!(segments[0].args, ArgsModel::Plain) {
                Ok(copy_chars(&segments[0].ident))
            } else {
                Err(
                    MacroError {
                        span: f.path_span,
                        message: chars_of("expected this path to be an identifier"),
                    },
                )
            }
        },
        TypeModel::Other { .. } => Err(MacroError { span: f.ty_span, message: chars_of("unsupported type") }),
    }
}

impl BitfieldField {
    /// Reads a field: the name of its type, then its `#[bits = N]`.
    pub fn try_from(f: &BitfieldFieldInput) -> (r: Result<BitfieldField, MacroError>)
        ensures
            field_answer_view(r) == bitfield_field_spec(*f),
    {
        let ty = match field_type_name_of(f) {
            Ok(ty) => ty,
            Err(e) => {
                return Err(e);
            },
        };
        let mut check: Option<SizeCheck> = None;
        let mut i: usize = 0;
        while i < f.attrs.len()
            invariant
                i <= f.attrs@.len(),
                field_type_name(*f) == Ok::<Seq<char>, ErrorV>(ty@),
                bits_config(f.attrs@.subrange(0, i as int)) == Ok::<Option<SizeCheckV>, ErrorV>(
                    check_view(check),
                ),
            decreases f.attrs.len() - i,
        {
            proof {
                assert(f.attrs@.subrange(0, i + 1).drop_last() =~= f.attrs@.subrange(0, i as int));
            }
            let attr = &f.attrs[i];
            if is_ident(&attr.path, "bits") {
                if check.is_some() {
                    let r = MacroError { span: attr.span, message: chars_of("bits already set") };
                    proof {
                        lemma_bits_config_error(f.attrs@, i + 1, r@);
                    }
                    return Err(r);
                }
                match &attr.value {
                    BitsValue::IntLiteral { text, span } => {
                        check = Some(SizeCheck { literal: copy_chars(text), span: *span });
                    },
                    BitsValue::Other => {
                        let r = MacroError { span: attr.meta_span, message: chars_of("expected bits = ...") };
                        proof {
                            lemma_bits_config_error(f.attrs@, i + 1, r@);
                        }
                        return Err(r);
                    },
                }
            }
            i += 1;
        }
        proof {
            assert(f.attrs@.subrange(0, f.attrs@.len() as int) =~= f.attrs@);
        }
        Ok(BitfieldField { ident: copy_chars(&f.ident), ty, size_check: check })
    }
}

/// The fields of a struct given to `#[bitfield]`: named fields, or the span
/// of fields of another kind (a tuple or unit struct).
pub enum BitfieldFields {
    Named { fields: Vec<BitfieldFieldInput> },
    NotNamed { span: SpanId },
}

/// A struct given to `#[bitfield]`: its name and its fields.
pub struct BitfieldInput {
    pub name: Vec<char>,
    pub fields: BitfieldFields,
}

/// The message for a struct without named fields.
pub open spec fn not_named_message() -> Seq<char> {
    "unsupported by bitfield"@
}

/// The fields of a bit field, read in order, or the first error.
pub open spec fn fields_spec(fs: Seq<BitfieldFieldInput>) -> Result<Seq<BitfieldFieldV>, ErrorV>
    decreases fs.len(),
{
    if fs.len() == 0 {
        Ok(Seq::empty())
    } else {
        match fields_spec(fs.drop_last()) {
            Err(e) => Err(e),
            Ok(vs) => match bitfield_field_spec(fs.last()) {
                Err(e) => Err(e),
                Ok(v) => Ok(vs.push(v)),
            },
        }
    }
}

/// What `#[bitfield]` reads from a struct: its name and fields, or the error.
pub open spec fn bitfield_spec(item: BitfieldInput) -> Result<(Seq<char>, Seq<BitfieldFieldV>), ErrorV> {
    match item.fields {
        BitfieldFields::NotNamed { span } => Err(ErrorV { span, message: not_named_message() }),
        BitfieldFields::Named { fields } => match fields_spec(fields@) {
            Err(e) => Err(e),
            Ok(vs) => Ok((item.name@, vs)),
        },
    }
}

/// A struct read by `#[bitfield]`: its name and its fields.
pub struct BitField {
    pub name: Vec<char>,
    pub fields: Vec<BitfieldField>,
}

/// The values of a sequence of fields.
pub open spec fn fields_view(fs: Seq<BitfieldField>) -> Seq<BitfieldFieldV> {
    Seq::new(fs.len(), |i: int| fs[i]@)
}

/// The value of the answer of `BitField::try_from`.
pub open spec fn bitfield_answer_view(r: Result<BitField, MacroError>) -> Result<
    (Seq<char>, Seq<BitfieldFieldV>),
    ErrorV,
> {
    match r {
        Ok(b) => Ok((b.name@, fields_view(b.fields@))),
        Err(e) => Err(e@),
    }
}

proof fn lemma_fields_spec_error(fs: Seq<BitfieldFieldInput>, k: int, e: ErrorV)
    requires
        0 <= k <= fs.len(),
        fields_spec(fs.subrange(0, k)) == Err::<Seq<BitfieldFieldV>, ErrorV>(e),
    ensures
        fields_spec(fs) == Err::<Seq<BitfieldFieldV>, ErrorV>(e),
    decreases fs.len() - k,
{
    if k < fs.len() {
        assert(fs.subrange(0, k + 1).drop_last() =~= fs.subrange(0, k));
        lemma_fields_spec_error(fs, k + 1, e);
    } else {
        assert(fs.subrange(0, k) =~= fs);
    }
}

impl BitField {
    /// Reads a struct given to `#[bitfield]`: it must have named fields,
    /// each read by `BitfieldField::try_from`.
    pub fn try_from(item: &BitfieldInput) -> (r: Result<BitField, MacroError>)
        ensures
            bitfield_answer_view(r) == bitfield_spec(*item),
    {
        match &item.fields {
            BitfieldFields::NotNamed { span } => Err(
                MacroError { span: *span, message: chars_of("unsupported by bitfield") },
            ),
            BitfieldFields::Named { fields } => {
                let mut out: Vec<BitfieldField> = Vec::new();
                let mut i: usize = 0;
                proof {
                    assert(fields@.subrange(0, 0) =~= Seq::<BitfieldFieldInput>::empty());
                    assert(fields_view(out@) =~= Seq::<BitfieldFieldV>::empty());
                }
                while i < fields.len()
                    invariant
                        i <= fields@.len(),
                        item.fields == (BitfieldFields::Named { fields: *fields }),
                        fields_spec(fields@.subrange(0, i as int)) == Ok::<Seq<BitfieldFieldV>, ErrorV>(
                            fields_view(out@),
                        ),
                    decreases fields.len() - i,
                {
                    proof {
                        assert(fields@.subrange(0, i + 1).drop_last() =~= fields@.subrange(0, i as int));
                        assert(fields@.subrange(0, i + 1).last() == fields@[i as int]);
                    }
                    match BitfieldField::try_from(&fields[i]) {
                        Ok(f) => {
                            let ghost before = out@;
                            out.push(f);
                            proof {
                                assert(fields_view(out@) =~= fields_view(before).push(f@));
                            }
                        },
                        Err(e) => {
                            proof {
                                lemma_fields_spec_error(fields@, i + 1, e@);
                            }
                            return Err(e);
                        },
                    }
                    i += 1;
                }
                proof {
                    assert(fields@.subrange(0, fields@.len() as int) =~= fields@);
                }
                Ok(BitField { name: copy_chars(&item.name), fields: out })
            },
        }
    }
}

/// The accessors of one field: the getter's and the setter's names, the
/// field's type, and the types of the fields before it, whose widths add
/// up to the field's bit position.
pub struct Accessor {
    pub getter: Vec<char>,
    pub setter: Vec<char>,
    pub ty: Vec<char>,
    pub offset_types: Vec<Vec<char>>,
}

/// A compile-time check that the type `ty` is `literal` bits wide, reported
/// at `span`.
pub struct SizeCheckPlan {
    pub literal: Vec<char>,
    pub span: SpanId,
    pub ty: Vec<char>,
}

/// The value of a `SizeCheckPlan`: literal, span and type.
pub open spec fn size_check_plan_view(c: SizeCheckPlan) -> (Seq<char>, SpanId, Seq<char>) {
    (c.literal@, c.span, c.ty@)
}

/// The values of a sequence of `SizeCheckPlan`s.
pub open spec fn size_checks_view(cs: Seq<SizeCheckPlan>) -> Seq<(Seq<char>, SpanId, Seq<char>)> {
    Seq::new(cs.len(), |i: int| size_check_plan_view(cs[i]))
}

/// What `#[bitfield]` generates: a struct `name` holding, as bytes, the
/// summed widths of `field_types`; the accessors of each field; and the
/// width checks the fields ask for.
pub struct BitfieldPlan {
    pub name: Vec<char>,
    pub field_types: Vec<Vec<char>>,
    pub accessors: Vec<Accessor>,
    pub size_checks: Vec<SizeCheckPlan>,
}

/// The type names of a sequence of fields.
pub open spec fn field_types_of(fs: Seq<BitfieldFieldV>) -> Seq<Seq<char>> {
    Seq::new(fs.len(), |i: int| fs[i].ty)
}

/// The name of the getter of a field `ident`.
pub open spec fn getter_name(ident: Seq<char>) -> Seq<char> {
    "get_"@ + unraw(ident)
}

/// The name of the setter of a field `ident`.
pub open spec fn setter_name(ident: Seq<char>) -> Seq<char> {
    "set_"@ + unraw(ident)
}

/// Whether `a` holds the accessors of field `i` of `fs`.
pub open spec fn is_accessor(fs: Seq<BitfieldFieldV>, i: int, a: Accessor) -> bool {
    &&& a.getter@ == getter_name(fs[i].ident)
    &&& a.setter@ == setter_name(fs[i].ident)
    &&& a.ty@ == fs[i].ty
    &&& names_view(a.offset_types@) == field_types_of(fs).take(i)
}

/// The width checks the fields ask for, in field order.
pub open spec fn size_checks_of(fs: Seq<BitfieldFieldV>) -> Seq<(Seq<char>, SpanId, Seq<char>)>
    decreases fs.len(),
{
    if fs.len() == 0 {
        Seq::empty()
    } else {
        match fs.last().size_check {
            Some(c) => size_checks_of(fs.drop_last()).push((c.literal, c.span, fs.last().ty)),
            None => size_checks_of(fs.drop_last()),
        }
    }
}

/// Whether `p` is what `#[bitfield]` generates for the struct `name` with
/// the fields `fs`.
pub open spec fn is_bitfield_plan(name: Seq<char>, fs: Seq<BitfieldFieldV>, p: BitfieldPlan) -> bool {
    &&& p.name@ == name
    &&& names_view(p.field_types@) == field_types_of(fs)
    &&& p.accessors@.len() == fs.len()
    &&& forall|i: int| 0 <= i < fs.len() ==> is_accessor(fs, i, #[trigger] p.accessors@[i])
    &&& size_checks_view(p.size_checks@) == size_checks_of(fs)
}

/// Whether the accessors of `p` sit one after the other: accessor `i` is
/// for field type `i` and is placed after the types before it.
pub open spec fn is_layout(p: BitfieldPlan) -> bool {
    &&& p.accessors@.len() == p.field_types@.len()
    &&& forall|i: int|
        0 <= i < p.accessors@.len() ==> {
            &&& (#[trigger] p.accessors@[i]).ty@ == p.field_types@[i]@
            &&& names_view(p.accessors@[i].offset_types@) == names_view(p.field_types@).take(i)
        }
}

/// `text` with `prefix` before it.
fn prefixed(prefix: &str, text: &Vec<char>) -> (r: Vec<char>)
    ensures
        r@ == prefix@ + text@,
{
    let mut r = chars_of(prefix);
    append_chars(&mut r, text);
    r
}

impl BitField {
    /// What `#[bitfield]` generates for this struct.
    pub fn plan(&self) -> (p: BitfieldPlan)
        ensures
            is_bitfield_plan(self.name@, fields_view(self.fields@), p),
            is_layout(p),
    {
        let ghost fs = fields_view(self.fields@);
        let mut types: Vec<Vec<char>> = Vec::new();
        let mut accessors: Vec<Accessor> = Vec::new();
        let mut checks: Vec<SizeCheckPlan> = Vec::new();
        let mut i: usize = 0;
        proof {
            assert(names_view(types@) =~= field_types_of(fs).take(0));
            assert(size_checks_view(checks@) =~= size_checks_of(fs.take(0)));
        }
        while i < self.fields.len()
            invariant
                fs == fields_view(self.fields@),
                i <= self.fields@.len(),
                names_view(types@) == field_types_of(fs).take(i as int),
                accessors@.len() == i,
                forall|k: int| 0 <= k < i ==> is_accessor(fs, k, #[trigger] accessors@[k]),
                size_checks_view(checks@) == size_checks_of(fs.take(i as int)),
            decreases self.fields.len() - i,
        {
            let f = &self.fields[i];
            let name = unraw_chars(&f.ident);
            let accessor = Accessor {
                getter: prefixed("get_", &name),
                setter: prefixed("set_", &name),
                ty: copy_chars(&f.ty),
                offset_types: copy_names(&types),
            };
            accessors.push(accessor);
            let ghost checks_before = checks@;
            match &f.size_check {
                Some(c) => {
                    checks.push(SizeCheckPlan { literal: copy_chars(&c.literal), span: c.span, ty: copy_chars(&f.ty) });
                },
                None => {},
            }
            let ghost types_before = types@;
            types.push(copy_chars(&f.ty));
            proof {
                assert(fs.take(i + 1).drop_last() =~= fs.take(i as int));
                assert(fs.take(i + 1).last() == fs[i as int]);
                assert(size_checks_view(checks@) =~= size_checks_of(fs.take(i + 1)));
                assert(names_view(types@) =~= names_view(types_before).push(f.ty@));
                assert(names_view(types@) =~= field_types_of(fs).take(i + 1));
            }
            i += 1;
        }
        proof {
            assert(fs.take(fs.len() as int) =~= fs);
            assert(field_types_of(fs).take(fs.len() as int) =~= field_types_of(fs));
        }
        let p = BitfieldPlan { name: copy_chars(&self.name), field_types: types, accessors, size_checks: checks };
        proof {
            assert forall|i: int| 0 <= i < p.accessors@.len() implies {
                &&& (#[trigger] p.accessors@[i]).ty@ == p.field_types@[i]@
                &&& names_view(p.accessors@[i].offset_types@) == names_view(p.field_types@).take(i)
            } by {
                assert(is_accessor(fs, i, p.accessors@[i]));
                assert(names_view(p.field_types@)[i] == p.field_types@[i]@);
            }
        }
        p
    }
}

/// The value of the answer of `bitfield`.
pub open spec fn bitfield_result_spec(item: BitfieldInput, r: Result<BitfieldPlan, MacroError>) -> bool {
    match bitfield_spec(item) {
        Err(e) => r matches Err(err) && err@ == e,
        Ok((name, fs)) => r matches Ok(p) && is_bitfield_plan(name, fs, p) && is_layout(p),
    }
}

/// `#[bitfield]` on a struct: what to generate, or the error to report (the
/// caller reports it and keeps the struct as written).
pub fn bitfield(item: &BitfieldInput) -> (r: Result<BitfieldPlan, MacroError>)
    ensures
        bitfield_result_spec(*item, r),
{
    match BitField::try_from(item) {
        Ok(b) => Ok(b.plan()),
        Err(e) => Err(e),
    }
}

/// The summed widths of `types`, each type `t` being `w(t)` bits wide.
pub open spec fn bit_sum(types: Seq<Seq<char>>, w: spec_fn(Seq<char>) -> nat) -> nat
    decreases types.len(),
{
    if types.len() == 0 {
        0
    } else {
        bit_sum(types.drop_last(), w) + w(types.last())
    }
}

/// The bit position of the field of accessor `i` of `p`, the types being
/// `w` bits wide.
pub open spec fn field_offset(p: BitfieldPlan, w: spec_fn(Seq<char>) -> nat, i: int) -> nat {
    bit_sum(names_view(p.accessors@[i].offset_types@), w)
}

/// The width of the field of accessor `i` of `p`.
pub open spec fn field_width(p: BitfieldPlan, w: spec_fn(Seq<char>) -> nat, i: int) -> nat {
    w(p.accessors@[i].ty@)
}

/// The number of bits of the struct `p` describes.
pub open spec fn total_bits(p: BitfieldPlan, w: spec_fn(Seq<char>) -> nat) -> nat {
    bit_sum(names_view(p.field_types@), w)
}

proof fn lemma_bit_sum_step(s: Seq<Seq<char>>, w: spec_fn(Seq<char>) -> nat, a: int)
    requires
        0 <= a < s.len(),
    ensures
        bit_sum(s.take(a + 1), w) == bit_sum(s.take(a), w) + w(s[a]),
{
    assert(s.take(a + 1).drop_last() =~= s.take(a));
}

proof fn lemma_bit_sum_grows(s: Seq<Seq<char>>, w: spec_fn(Seq<char>) -> nat, a: int, b: int)
    requires
        0 <= a <= b <= s.len(),
    ensures
        bit_sum(s.take(a), w) <= bit_sum(s.take(b), w),
    decreases b - a,
{
    if a < b {
        lemma_bit_sum_grows(s, w, a, b - 1);
        lemma_bit_sum_step(s, w, b - 1);
    }
}

proof fn lemma_field_end(p: BitfieldPlan, w: spec_fn(Seq<char>) -> nat, i: int)
    requires
        is_layout(p),
        0 <= i < p.accessors@.len(),
    ensures
        field_offset(p, w, i) + field_width(p, w, i) == bit_sum(names_view(p.field_types@).take(i + 1), w),
{
    let s = names_view(p.field_types@);
    assert(names_view(p.accessors@[i].offset_types@) == s.take(i));
    assert(s[i] == p.field_types@[i]@);
    lemma_bit_sum_step(s, w, i);
}

/// The fields of a bit field do not overlap: a field ends before the next
/// one starts, whatever the widths of the field types.
pub proof fn law_bitfield_fields_disjoint(p: BitfieldPlan, w: spec_fn(Seq<char>) -> nat, i: int, j: int)
    requires
        is_layout(p),
        0 <= i < j < p.accessors@.len(),
    ensures
        field_offset(p, w, i) + field_width(p, w, i) <= field_offset(p, w, j),
{
    let s = names_view(p.field_types@);
    lemma_field_end(p, w, i);
    assert(names_view(p.accessors@[j].offset_types@) == s.take(j));
    lemma_bit_sum_grows(s, w, i + 1, j);
}

/// Every field of a bit field lies within the struct's bits.
pub proof fn law_bitfield_fields_fit(p: BitfieldPlan, w: spec_fn(Seq<char>) -> nat, i: int)
    requires
        is_layout(p),
        0 <= i < p.accessors@.len(),
    ensures
        field_offset(p, w, i) + field_width(p, w, i) <= total_bits(p, w),
{
    let s = names_view(p.field_types@);
    lemma_field_end(p, w, i);
    lemma_bit_sum_grows(s, w, i + 1, s.len() as int);
    assert(s.take(s.len() as int) =~= s);
}

/// Setting one field of a bit field leaves every other field as it was.
pub proof fn law_bitfield_set_keeps_other_fields(
    p: BitfieldPlan,
    w: spec_fn(Seq<char>) -> nat,
    old: Seq<u8>,
    new: Seq<u8>,
    i: int,
    v: u64,
    j: int,
)
    requires
        is_layout(p),
        0 <= i < p.accessors@.len(),
        0 <= j < p.accessors@.len(),
        i != j,
        total_bits(p, w) <= 8 * old.len(),
        is_written(old, new, field_offset(p, w, i) as int, field_width(p, w, i), v),
    ensures
        bits_value(new, field_offset(p, w, j) as int, field_width(p, w, j)) == bits_value(
            old,
            field_offset(p, w, j) as int,
            field_width(p, w, j),
        ),
{
    law_bitfield_fields_fit(p, w, j);
    if i < j {
        law_bitfield_fields_disjoint(p, w, i, j);
    } else {
        law_bitfield_fields_disjoint(p, w, j, i);
    }
    law_write_keeps_other_fields(
        old,
        new,
        field_offset(p, w, i) as int,
        field_width(p, w, i),
        v,
        field_offset(p, w, j) as int,
        field_width(p, w, j),
    );
}

proof fn lemma_zero_bits_value(data: Seq<u8>, start: int, len: nat)
    requires
        0 <= start,
        start + len <= 8 * data.len(),
        forall|q: int| 0 <= q < data.len() ==> data[q] == 0,
    ensures
        bits_value(data, start, len) == 0,
    decreases len,
{
    if len > 0 {
        lemma_zero_bits_value(data, start, (len - 1) as nat);
        law_zero_bytes_have_clear_bits(data, start + len - 1);
    }
}

/// On a new bit field, all zero bytes, a field that was set reads back as
/// the value written (its low bits, as many as the field is wide), and
/// every other field still reads 0.
pub proof fn law_bitfield_new_reads_back(
    p: BitfieldPlan,
    w: spec_fn(Seq<char>) -> nat,
    old: Seq<u8>,
    new: Seq<u8>,
    i: int,
    v: u64,
)
    requires
        is_layout(p),
        0 <= i < p.accessors@.len(),
        field_width(p, w, i) <= 64,
        total_bits(p, w) <= 8 * old.len(),
        forall|q: int| 0 <= q < old.len() ==> old[q] == 0,
        is_written(old, new, field_offset(p, w, i) as int, field_width(p, w, i), v),
    ensures
        bits_value(new, field_offset(p, w, i) as int, field_width(p, w, i)) == (v & low_mask(
            field_width(p, w, i),
        )) as nat,
        forall|j: int|
            0 <= j < p.accessors@.len() && j != i ==> bits_value(
                new,
                field_offset(p, w, j) as int,
                #[trigger] field_width(p, w, j),
            ) == 0,
{
    let off = field_offset(p, w, i) as int;
    let width = field_width(p, w, i);
    law_bitfield_fields_fit(p, w, i);
    assert forall|k: int| 0 <= k < width implies #[trigger] bit_at(old, off + k) == 0 by {
        law_zero_bytes_have_clear_bits(old, off + k);
    }
    law_read_after_write(old, new, off, width, v);
    assert forall|j: int| 0 <= j < p.accessors@.len() && j != i implies bits_value(
        new,
        field_offset(p, w, j) as int,
        #[trigger] field_width(p, w, j),
    ) == 0 by {
        law_bitfield_set_keeps_other_fields(p, w, old, new, i, v, j);
        law_bitfield_fields_fit(p, w, j);
        lemma_zero_bits_value(old, field_offset(p, w, j) as int, field_width(p, w, j));
    }
}

/// Whether `n` is a power of two.
pub open spec fn is_power_of_two(n: nat) -> bool {
    exists|e: nat| pow2(e) == n
}

proof fn lemma_odd_multiple_of_power(m: nat, k: nat, e: nat)
    requires
        m % 2 == 1,
        pow2(e) == m * pow2(k),
    ensures
        m == 1,
{
    vstd::arithmetic::power2::lemma_pow2_pos(k);
    vstd::arithmetic::power2::lemma_pow2_pos(e);
    if e < k {
        vstd::arithmetic::power2::lemma_pow2_strictly_increases(e, k);
        assert(m * pow2(k) >= pow2(k)) by (nonlinear_arith)
            requires
                m >= 1,
        ;
    } else {
        let d = (e - k) as nat;
        vstd::arithmetic::power2::lemma_pow2_adds(d, k);
        assert(d + k == e);
        let pk = pow2(k);
        let pd = pow2(d);
        assert(m == pd) by (nonlinear_arith)
            requires
                pd * pk == m * pk,
                pk > 0,
        ;
        if d > 0 {
            vstd::arithmetic::power2::lemma_pow2_unfold(d);
            assert(pd % 2 == 0);
        } else {
            vstd::arithmetic::power2::lemma2_to64();
        }
    }
}

/// The exponent `e` with `2^e == n`, when `n` is a power of two.
pub fn exponent_of_two(n: usize) -> (r: Option<usize>)
    ensures
        match r {
            Some(e) => pow2(e as nat) == n,
            None => !is_power_of_two(n as nat),
        },
{
    let mut m: usize = n;
    let mut k: usize = 0;
    proof {
        vstd::arithmetic::power2::lemma2_to64();
    }
    while m > 1 && m % 2 == 0
        invariant
            n == m * pow2(k as nat),
            k <= 64,
        decreases m,
    {
        let ghost m0 = m;
        let ghost k0 = k as nat;
        m = m / 2;
        proof {
            vstd::arithmetic::power2::lemma_pow2_unfold(k0 + 1);
            vstd::arithmetic::power2::lemma_pow2_pos(k0);
            assert(n == m * pow2(k0 + 1)) by (nonlinear_arith)
                requires
                    n == m0 * pow2(k0),
                    m0 == 2 * m,
                    pow2(k0 + 1) == 2 * pow2(k0),
            ;
            if k0 + 1 > 64 {
                vstd::arithmetic::power2::lemma2_to64();
                if k0 + 1 > 64 {
                    vstd::arithmetic::power2::lemma_pow2_strictly_increases(64, k0 + 1);
                }
                assert(m * pow2(k0 + 1) >= pow2(k0 + 1)) by (nonlinear_arith)
                    requires
                        m >= 1,
                ;
            }
        }
        k = k + 1;
    }
    if m == 1 {
        Some(k)
    } else {
        proof {
            if is_power_of_two(n as nat) {
                let e = choose|e: nat| pow2(e) == n as nat;
                vstd::arithmetic::power2::lemma_pow2_pos(e);
                vstd::arithmetic::power2::lemma_pow2_pos(k as nat);
                if m == 0 {
                    assert(n == 0);
                } else {
                    lemma_odd_multiple_of_power(m as nat, k as nat, e);
                }
            }
        }
        None
    }
}

/// A variant of an enum given to `#[derive(BitfieldSpecifier)]`: its name,
/// the span of the whole variant, the span of its name, and whether it has
/// no fields.
pub struct VariantInput {
    pub ident: Vec<char>,
    pub span: SpanId,
    pub ident_span: SpanId,
    pub unit: bool,
}

/// A variant in the generated code: its name, and the span its
/// discriminant check is reported at.
pub struct VariantName {
    pub ident: Vec<char>,
    pub span: SpanId,
}

/// What `#[derive(BitfieldSpecifier)]` generates for an enum: `name` is a
/// `Specifier` of `bits` bits, whose values travel as `int_type`; `variants`
/// are its variants in order, each checked to have a discriminant below
/// their number.
pub struct SpecifierPlan {
    pub name: Vec<char>,
    pub bits: usize,
    pub int_type: Vec<char>,
    pub variants: Vec<VariantName>,
}

/// The message for a variant with fields.
pub open spec fn unit_variant_message() -> Seq<char> {
    "expected unit variant"@
}

/// The message for a number of variants that is not a power of two.
pub open spec fn power_of_two_message() -> Seq<char> {
    "BitfieldSpecifier expected a number of variants which is a power of 2"@
}

/// The first variant with fields, as an error.
pub open spec fn unit_check(vs: Seq<VariantInput>) -> Result<(), ErrorV>
    decreases vs.len(),
{
    if vs.len() == 0 {
        Ok(())
    } else {
        match unit_check(vs.drop_last()) {
            Err(e) => Err(e),
            Ok(()) => if vs.last().unit {
                Ok(())
            } else {
                Err(ErrorV { span: vs.last().span, message: unit_variant_message() })
            },
        }
    }
}

/// The width of the integer type the values of an enum of `n` variants
/// travel as: 8 below 5 variants, else `n` (a power of two).
pub open spec fn variant_int_width(n: nat) -> nat {
    if n < 5 {
        8
    } else {
        n
    }
}

/// Whether `p` is what the derive generates for the enum `name` with the
/// variants `vs`.
pub open spec fn is_specifier_plan(name: Seq<char>, vs: Seq<VariantInput>, p: SpecifierPlan) -> bool {
    &&& p.name@ == name
    &&& pow2(p.bits as nat) == vs.len()
    &&& p.int_type@ == "u"@ + decimal(variant_int_width(vs.len()))
    &&& p.variants@.len() == vs.len()
    &&& forall|k: int|
        0 <= k < vs.len() ==> (#[trigger] p.variants@[k]).ident@ == vs[k].ident@ && p.variants@[k].span
            == vs[k].ident_span
}

/// What the derive answers for the enum `name` with the variants `vs`.
pub open spec fn specifier_result_spec(name: Seq<char>, vs: Seq<VariantInput>, r: Result<SpecifierPlan, MacroError>) -> bool {
    match unit_check(vs) {
        Err(e) => r matches Err(err) && err@ == e,
        Ok(()) => if is_power_of_two(vs.len()) {
            r matches Ok(p) && is_specifier_plan(name, vs, p)
        } else {
            r matches Err(err) && err@ == ErrorV { span: call_site(), message: power_of_two_message() }
        },
    }
}

proof fn lemma_unit_check_error(vs: Seq<VariantInput>, k: int, e: ErrorV)
    requires
        0 <= k <= vs.len(),
        unit_check(vs.subrange(0, k)) == Err::<(), ErrorV>(e),
    ensures
        unit_check(vs) == Err::<(), ErrorV>(e),
    decreases vs.len() - k,
{
    if k < vs.len() {
        assert(vs.subrange(0, k + 1).drop_last() =~= vs.subrange(0, k));
        lemma_unit_check_error(vs, k + 1, e);
    } else {
        assert(vs.subrange(0, k) =~= vs);
    }
}

proof fn lemma_width_of_power_of_two(n: nat, r: nat)
    requires
        is_power_of_two(n),
        is_int_width_for(n, r),
    ensures
        r == variant_int_width(n),
{
    let a = choose|e: nat| pow2(e) == n;
    let b = choose|e: nat| pow2(e) == r;
    vstd::arithmetic::power2::lemma2_to64();
    if n < 5 {
        if r != 8 {
            assert(r / 2 < n);
        }
    } else if r != n {
        if a < b {
            vstd::arithmetic::power2::lemma_pow2_unfold(b);
            if a + 1 < b {
                vstd::arithmetic::power2::lemma_pow2_strictly_increases(a, (b - 1) as nat);
            }
            assert(r / 2 >= n);
            if n < 8 {
                if a < 3 {
                    if a == 0 {
                    } else if a == 1 {
                    } else {
                    }
                } else if a > 3 {
                    vstd::arithmetic::power2::lemma_pow2_strictly_increases(3, a);
                }
            }
        } else if b < a {
            vstd::arithmetic::power2::lemma_pow2_strictly_increases(b, a);
        }
    }
}

proof fn lemma_power_of_two_fits(e: nat)
    requires
        pow2(e) <= usize::MAX,
    ensures
        pow2(e) <= usize::MAX / 2 + 1,
{
    vstd::arithmetic::power2::lemma2_to64();
    vstd::arithmetic::power2::lemma2_to64_rest();
    assert(usize::MAX == 0xffff_ffff || usize::MAX == 0xffff_ffff_ffff_ffff);
    let h: nat = if usize::MAX == 0xffff_ffff { 31 } else { 63 };
    assert(pow2(h) == usize::MAX / 2 + 1);
    assert(pow2(h + 1) == usize::MAX + 1);
    if e > h {
        if e > h + 1 {
            vstd::arithmetic::power2::lemma_pow2_strictly_increases(h + 1, e);
        }
    } else if e < h {
        vstd::arithmetic::power2::lemma_pow2_strictly_increases(e, h);
    }
}

/// `#[derive(BitfieldSpecifier)]` on the enum `name` with the variants
/// `variants`: what to generate, or the error: the first variant with
/// fields, else a number of variants that is not a power of two.
pub fn derive(name: &Vec<char>, variants: &Vec<VariantInput>) -> (r: Result<SpecifierPlan, MacroError>)
    ensures
        specifier_result_spec(name@, variants@, r),
{
    let mut names: Vec<VariantName> = Vec::new();
    let mut i: usize = 0;
    proof {
        assert(variants@.subrange(0, 0) =~= Seq::<VariantInput>::empty());
    }
    while i < variants.len()
        invariant
            i <= variants@.len(),
            unit_check(variants@.subrange(0, i as int)) == Ok::<(), ErrorV>(()),
            names@.len() == i,
            forall|k: int|
                0 <= k < i ==> (#[trigger] names@[k]).ident@ == variants@[k].ident@ && names@[k].span
                    == variants@[k].ident_span,
        decreases variants.len() - i,
    {
        proof {
            assert(variants@.subrange(0, i + 1).drop_last() =~= variants@.subrange(0, i as int));
        }
        let v = &variants[i];
        if !v.unit {
            let r = MacroError { span: v.span, message: chars_of("expected unit variant") };
            proof {
                lemma_unit_check_error(variants@, i + 1, r@);
            }
            return Err(r);
        }
        names.push(VariantName { ident: copy_chars(&v.ident), span: v.ident_span });
        i += 1;
    }
    proof {
        assert(variants@.subrange(0, variants@.len() as int) =~= variants@);
    }
    let count = variants.len();
    match exponent_of_two(count) {
        None => Err(
            MacroError {
                span: 0,
                message: chars_of("BitfieldSpecifier expected a number of variants which is a power of 2"),
            },
        ),
        Some(bits) => {
            proof {
                lemma_power_of_two_fits(bits as nat);
            }
            let width = next_multiple_of_8(count);
            proof {
                lemma_width_of_power_of_two(count as nat, width as nat);
            }
            let mut int_type = chars_of("u");
            let digits = decimal_chars(width);
            append_chars(&mut int_type, &digits);
            Ok(SpecifierPlan { name: copy_chars(name), bits, int_type, variants: names })
        },
    }
}

} // verus!

verus! {

/// Whether `k` is the arm the generated `to_interface_type` takes for the
/// raw value `v`, its arms being tried in the order of the variants, whose
/// discriminants are `discriminants`: the first variant whose discriminant
/// is `v`.
pub open spec fn is_first_arm(discriminants: Seq<u64>, v: u64, k: int) -> bool {
    &&& 0 <= k < discriminants.len()
    &&& discriminants[k] == v
    &&& forall|m: int| 0 <= m < k ==> #[trigger] discriminants[m] != v
}

/// The arm the generated `to_interface_type` takes for the raw value `v`:
/// the index of the first variant whose discriminant is `v`, or `None` when
/// no discriminant is `v` (the unreachable arm).
pub fn variant_for_raw(discriminants: &Vec<u64>, v: u64) -> (r: Option<usize>)
    ensures
        match r {
            Some(k) => is_first_arm(discriminants@, v, k as int),
            None => forall|k: int| 0 <= k < discriminants@.len() ==> #[trigger] discriminants@[k] != v,
        },
{
    let mut i: usize = 0;
    while i < discriminants.len()
        invariant
            i <= discriminants@.len(),
            forall|m: int| 0 <= m < i ==> #[trigger] discriminants@[m] != v,
        decreases discriminants.len() - i,
    {
        if discriminants[i] == v {
            return Some(i);
        }
        i += 1;
    }
    None
}

/// A derived specifier shows each variant again from the bits it wrote:
/// for an enum of `2^bits` variants whose discriminants are distinct and
/// each below the number of variants (what the generated checks assert),
/// writing the discriminant of variant `k` into a cleared field of `bits`
/// bits and reading the field back selects the arm of variant `k`.
pub proof fn law_derived_specifier_round_trip(
    p: SpecifierPlan,
    discriminants: Seq<u64>,
    old: Seq<u8>,
    new: Seq<u8>,
    offset: int,
    k: int,
)
    requires
        pow2(p.bits as nat) == p.variants@.len(),
        discriminants.len() == p.variants@.len(),
        forall|a: int, b: int|
            0 <= a < b < discriminants.len() ==> #[trigger] discriminants[a] != #[trigger] discriminants[b],
        forall|m: int| 0 <= m < discriminants.len() ==> (#[trigger] discriminants[m] as nat) < p.variants@.len(),
        0 <= k < discriminants.len(),
        0 <= offset,
        offset + p.bits <= 8 * old.len(),
        forall|i: int| 0 <= i < p.bits ==> #[trigger] bit_at(old, offset + i) == 0,
        is_written(old, new, offset, p.bits as nat, discriminants[k]),
    ensures
        is_first_arm(discriminants, bits_value(new, offset, p.bits as nat) as u64, k),
{
    let width = p.bits as nat;
    let d = discriminants[k];
    if width > 64 {
        vstd::arithmetic::power2::lemma2_to64_rest();
        vstd::arithmetic::power2::lemma_pow2_strictly_increases(64, width);
        assert(p.variants.len() == p.variants@.len());
    }
    law_read_after_write(old, new, offset, width, d);
    crate::bits::lemma_low_mask_keeps_small(d, width);
    assert forall|m: int| 0 <= m < k implies #[trigger] discriminants[m] != d by {
        assert(discriminants[m] != discriminants[k]);
    }
}

} // verus!

verus! {

/// Field `i` named `x` (or `r#x`) gets the accessors `get_x` and `set_x`,
/// for its own type, placed after the types of the fields before it.
pub proof fn law_accessors_are_named_for_their_field(name: Seq<char>, fs: Seq<BitfieldFieldV>, p: BitfieldPlan, i: int)
    requires
        is_bitfield_plan(name, fs, p),
        0 <= i < fs.len(),
    ensures
        p.accessors@[i].getter@ == seq!['g', 'e', 't', '_'] + unraw(fs[i].ident),
        p.accessors@[i].setter@ == seq!['s', 'e', 't', '_'] + unraw(fs[i].ident),
        p.accessors@[i].ty@ == fs[i].ty,
        p.accessors@[i].offset_types@.len() == i,
        forall|k: int| 0 <= k < i ==> #[trigger] p.accessors@[i].offset_types@[k]@ == fs[k].ty,
{
    reveal_strlit("get_");
    reveal_strlit("set_");
    assert(is_accessor(fs, i, p.accessors@[i]));
    assert("get_"@ =~= seq!['g', 'e', 't', '_']);
    assert("set_"@ =~= seq!['s', 'e', 't', '_']);
    let ot = p.accessors@[i].offset_types@;
    assert(names_view(ot) == field_types_of(fs).take(i));
    assert(field_types_of(fs).len() == fs.len());
    assert(names_view(ot).len() == ot.len());
    assert(ot.len() == i);
    assert forall|k: int| 0 <= k < i implies #[trigger] ot[k]@ == fs[k].ty by {
        assert(names_view(ot)[k] == ot[k]@);
        assert(field_types_of(fs).take(i)[k] == fs[k].ty);
    }
}

} // verus!
