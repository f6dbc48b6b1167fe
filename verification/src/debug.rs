//! `#[derive(CustomDebug)]`: a `Debug` impl that prints each field, with a
//! format string per field given by `#[debug = "..."]`.
//!
//! The impl bounds by `Debug` each type parameter that a field's type uses
//! directly (not only through `PhantomData`), and each associated type
//! `T::Item` a field's type uses; `#[debug(bound = "...")]` on the struct
//! replaces all of these with the bound given.
use crate::builder::{copy_error, AttrArgs, NestedValue};
use crate::syn_calls::{check_where_predicate, where_answer_fits, where_answer_view};
use crate::syntax::{
    is_ident, path_is_ident, type_id, type_id_of, ArgsModel, GenericArgModel, PathModel, SegmentModel,
    TypeModel,
};
use crate::tokens::{chars_eq, chars_eq_str, chars_of, copy_chars, ErrorV, MacroError, SpanId};
use vstd::prelude::*;

verus! {

/// What a field's type asks to be bounded by `Debug`: a type parameter (by
/// name), or an associated type such as `T::Item` (by the id of its node).
pub enum DebugFieldGenerics {
    TypeParam { name: Vec<char> },
    AssocType { ty: usize },
}

/// The value of a `DebugFieldGenerics`.
pub enum GenV {
    TypeParam { name: Seq<char> },
    AssocType { ty: usize },
}

/// The value of a `DebugFieldGenerics`.
pub open spec fn gen_view(g: DebugFieldGenerics) -> GenV {
    match g {
        DebugFieldGenerics::TypeParam { name } => GenV::TypeParam { name: name@ },
        DebugFieldGenerics::AssocType { ty } => GenV::AssocType { ty },
    }
}

/// The values of a sequence of `DebugFieldGenerics`.
pub open spec fn gens_view(s: Seq<DebugFieldGenerics>) -> Seq<GenV> {
    Seq::new(s.len(), |i: int| gen_view(s[i]))
}

/// What the visitor finds in a type it walks through.
pub open spec fn visit_type(t: TypeModel) -> Seq<GenV>
    decreases t,
{
    match t {
        TypeModel::Path { qself, segments, .. } => {
            let q = match qself {
                Some(q) => visit_type(*q),
                None => Seq::empty(),
            };
            q + visit_segments(segments@)
        },
        TypeModel::Other { children, .. } => visit_types(children@),
    }
}

/// What the visitor finds in the types `ts`, one after the other.
pub open spec fn visit_types(ts: Seq<TypeModel>) -> Seq<GenV>
    decreases ts,
{
    if ts.len() == 0 {
        Seq::empty()
    } else {
        visit_types(ts.drop_last()) + visit_type(ts.last())
    }
}

/// What the visitor finds in the segments of a path, one after the other.
pub open spec fn visit_segments(segs: Seq<SegmentModel>) -> Seq<GenV>
    decreases segs,
{
    if segs.len() == 0 {
        Seq::empty()
    } else {
        visit_segments(segs.drop_last()) + visit_path_segment(segs.last())
    }
}

/// What the visitor finds in a path segment: the segment itself as a type
/// parameter when it has no generic arguments, else what its arguments hold.
pub open spec fn visit_path_segment(seg: SegmentModel) -> Seq<GenV>
    decreases seg,
{
    match seg.args {
        ArgsModel::Plain => seq![GenV::TypeParam { name: seg.ident@ }],
        ArgsModel::AngleBracketed { args } => visit_angle(args@, Some(seg.ident@)),
        ArgsModel::Parenthesized { types } => visit_types(types@),
    }
}

/// What the visitor finds in the arguments `<...>` of a segment named
/// `path_ident`: only a single argument is looked at, and not under
/// `PhantomData`.
pub open spec fn visit_angle(args: Seq<GenericArgModel>, path_ident: Option<Seq<char>>) -> Seq<GenV>
    decreases args,
{
    if args.len() == 1 && path_ident != Some("PhantomData"@) {
        visit_generic_argument(args[0])
    } else {
        Seq::empty()
    }
}

/// What the visitor finds in a generic argument: a plain path type of one
/// segment is a type parameter (or is walked into when it has arguments);
/// one of two plain segments is an associated type; nothing else counts.
pub open spec fn visit_generic_argument(arg: GenericArgModel) -> Seq<GenV>
    decreases arg,
{
    match arg {
        GenericArgModel::Type { ty } => match ty {
            TypeModel::Path { id, qself, leading_colon, segments } => if qself is None
                && !leading_colon {
                if segments@.len() == 1 {
                    if segments@[0].args is Plain {
                        seq![GenV::TypeParam { name: segments@[0].ident@ }]
                    } else {
                        visit_path_segment(segments@[0])
                    }
                } else if segments@.len() == 2 && segments@[0].args is Plain
                    && segments@[1].args is Plain {
                    seq![GenV::AssocType { ty: id }]
                } else {
                    Seq::empty()
                }
            } else {
                Seq::empty()
            },
            _ => Seq::empty(),
        },
        GenericArgModel::Other => Seq::empty(),
    }
}

/// Whether walking the type `t` goes through a path segment with generic
/// arguments, after which the visitor no longer has a segment's name at
/// hand.
pub open spec fn resets_type(t: TypeModel) -> bool
    decreases t,
{
    match t {
        TypeModel::Path { qself, segments, .. } => (match qself {
            Some(q) => resets_type(*q),
            None => false,
        }) || resets_segments(segments@),
        TypeModel::Other { children, .. } => resets_types(children@),
    }
}

/// Whether walking the types `ts` goes through a path segment with generic
/// arguments.
pub open spec fn resets_types(ts: Seq<TypeModel>) -> bool
    decreases ts,
{
    if ts.len() == 0 {
        false
    } else {
        resets_types(ts.drop_last()) || resets_type(ts.last())
    }
}

/// Whether some segment of `segs` has generic arguments.
pub open spec fn resets_segments(segs: Seq<SegmentModel>) -> bool
    decreases segs,
{
    if segs.len() == 0 {
        false
    } else {
        resets_segments(segs.drop_last()) || !(segs.last().args is Plain)
    }
}

/// Whether walking a generic argument goes through a path segment with
/// generic arguments: a plain path type of one segment that has some.
pub open spec fn resets_generic_argument(arg: GenericArgModel) -> bool {
    arg matches GenericArgModel::Type { ty } && (ty matches TypeModel::Path {
        qself,
        leading_colon,
        segments,
        ..
    } && qself is None && !leading_colon && segments@.len() == 1 && !(segments@[0].args is Plain))
}

/// Whether walking the arguments `<...>` of the segment named `path_ident`
/// goes through a path segment with generic arguments.
pub open spec fn resets_angle(args: Seq<GenericArgModel>, path_ident: Option<Seq<char>>) -> bool {
    args.len() == 1 && path_ident != Some("PhantomData"@) && resets_generic_argument(args[0])
}

/// The segment name the visitor has at hand after a walk that went through
/// a segment with generic arguments (`reset`), or not.
pub open spec fn ident_after(old_ident: Option<Vec<char>>, reset: bool) -> Option<Vec<char>> {
    if reset {
        None
    } else {
        old_ident
    }
}

/// A field of type `PhantomData<...>` asks for no bound, whatever its
/// argument.
pub proof fn law_phantom_data_adds_no_bound(t: TypeModel)
    requires
        t matches TypeModel::Path { qself, segments, .. } && qself is None && segments@.len() == 1
            && segments@[0].ident@ == "PhantomData"@ && segments@[0].args is AngleBracketed,
    ensures
        visit_type(t).len() == 0,
{
    let segs = t->Path_segments@;
    assert(segs.drop_last().len() == 0);
    assert(visit_segments(segs) =~= visit_segments(segs.drop_last()) + visit_path_segment(segs[0]));
}

} // verus!

verus! {

proof fn lemma_gens_push(s: Seq<DebugFieldGenerics>, g: DebugFieldGenerics)
    ensures
        gens_view(s.push(g)) == gens_view(s).push(gen_view(g)),
{
    assert(gens_view(s.push(g)) =~= gens_view(s).push(gen_view(g)));
}

/// The value of an optional text.
pub open spec fn opt_chars(o: Option<Vec<char>>) -> Option<Seq<char>> {
    match o {
        Some(v) => Some(v@),
        None => None,
    }
}

/// Walks a field's type and gathers what it asks to be bounded by `Debug`.
pub struct GenericsVisitor {
    pub path_ident: Option<Vec<char>>,
    pub results: Vec<DebugFieldGenerics>,
}

impl GenericsVisitor {
    /// A visitor that has found nothing yet.
    pub fn new() -> (r: GenericsVisitor)
        ensures
            r.path_ident is None,
            r.results@.len() == 0,
    {
        GenericsVisitor { path_ident: None, results: Vec::new() }
    }

    /// Walks a type.
    pub fn visit_type(&mut self, t: &TypeModel)
        ensures
            gens_view(final(self).results@) == gens_view(old(self).results@) + visit_type(*t),
            final(self).path_ident == ident_after(old(self).path_ident, resets_type(*t)),
        decreases t,
    {
        match t {
            TypeModel::Path { qself, segments, .. } => {
                let ghost r0 = gens_view(self.results@);
                match qself {
                    Some(q) => {
                        self.visit_type(q);
                    },
                    None => {},
                }
                let ghost r1 = gens_view(self.results@);
                self.visit_segments(segments);
                proof {
                    let q = match qself {
                        Some(q) => visit_type(**q),
                        None => Seq::<GenV>::empty(),
                    };
                    assert(r1 =~= r0 + q);
                    assert(gens_view(self.results@) =~= r0 + (q + visit_segments(segments@)));
                }
            },
            TypeModel::Other { children, .. } => {
                self.visit_types(children);
            },
        }
    }

    /// Walks the types `ts`, one after the other.
    fn visit_types(&mut self, ts: &Vec<TypeModel>)
        ensures
            gens_view(final(self).results@) == gens_view(old(self).results@) + visit_types(ts@),
            final(self).path_ident == ident_after(old(self).path_ident, resets_types(ts@)),
        decreases ts,
    {
        let ghost r0 = gens_view(self.results@);
        let ghost p0 = self.path_ident;
        let mut i: usize = 0;
        proof {
            assert(ts@.subrange(0, 0) =~= Seq::<TypeModel>::empty());
            assert(r0 + visit_types(Seq::<TypeModel>::empty()) =~= r0);
        }
        while i < ts.len()
            invariant
                i <= ts@.len(),
                self.path_ident == ident_after(p0, resets_types(ts@.subrange(0, i as int))),
                gens_view(self.results@) == r0 + visit_types(ts@.subrange(0, i as int)),
            decreases ts.len() - i,
        {
            proof {
                assert(ts@.subrange(0, i + 1).drop_last() =~= ts@.subrange(0, i as int));
                assert(decreases_to!(ts => ts@[i as int]));
            }
            self.visit_type(&ts[i]);
            proof {
                assert(gens_view(self.results@) =~= r0 + visit_types(ts@.subrange(0, i + 1)));
            }
            i += 1;
        }
        proof {
            assert(ts@.subrange(0, ts@.len() as int) =~= ts@);
        }
    }

    /// Walks the segments of a path, one after the other.
    fn visit_segments(&mut self, segs: &Vec<SegmentModel>)
        ensures
            gens_view(final(self).results@) == gens_view(old(self).results@) + visit_segments(segs@),
            final(self).path_ident == ident_after(old(self).path_ident, resets_segments(segs@)),
        decreases segs,
    {
        let ghost r0 = gens_view(self.results@);
        let ghost p0 = self.path_ident;
        let mut i: usize = 0;
        proof {
            assert(segs@.subrange(0, 0) =~= Seq::<SegmentModel>::empty());
            assert(r0 + visit_segments(Seq::<SegmentModel>::empty()) =~= r0);
        }
        while i < segs.len()
            invariant
                i <= segs@.len(),
                self.path_ident == ident_after(p0, resets_segments(segs@.subrange(0, i as int))),
                gens_view(self.results@) == r0 + visit_segments(segs@.subrange(0, i as int)),
            decreases segs.len() - i,
        {
            proof {
                assert(segs@.subrange(0, i + 1).drop_last() =~= segs@.subrange(0, i as int));
                assert(decreases_to!(segs => segs@[i as int]));
            }
            self.visit_path_segment(&segs[i]);
            proof {
                assert(gens_view(self.results@) =~= r0 + visit_segments(segs@.subrange(0, i + 1)));
            }
            i += 1;
        }
        proof {
            assert(segs@.subrange(0, segs@.len() as int) =~= segs@);
        }
    }

    /// Walks a path segment: a segment without generic arguments is taken
    /// as a type parameter; otherwise its arguments are walked, with the
    /// segment's name at hand.
    pub fn visit_path_segment(&mut self, seg: &SegmentModel)
        ensures
            gens_view(final(self).results@) == gens_view(old(self).results@) + visit_path_segment(*seg),
            final(self).path_ident == ident_after(old(self).path_ident, !(seg.args is Plain)),
        decreases seg,
    {
        match &seg.args {
            ArgsModel::Plain => {
                let ghost before = self.results@;
                self.results.push(DebugFieldGenerics::TypeParam { name: copy_chars(&seg.ident) });
                proof {
                    lemma_gens_push(before, self.results@.last());
                    assert(self.results@ == before.push(self.results@.last()));
                }
            },
            ArgsModel::AngleBracketed { args } => {
                self.path_ident = Some(copy_chars(&seg.ident));
                self.visit_angle_bracketed_generic_arguments(args);
                self.path_ident = None;
            },
            ArgsModel::Parenthesized { types } => {
                self.path_ident = Some(copy_chars(&seg.ident));
                self.visit_types(types);
                self.path_ident = None;
            },
        }
    }

    /// Walks the arguments `<...>` of the segment named by `path_ident`.
    pub fn visit_angle_bracketed_generic_arguments(&mut self, args: &Vec<GenericArgModel>)
        ensures
            gens_view(final(self).results@) == gens_view(old(self).results@) + visit_angle(
                args@,
                opt_chars(old(self).path_ident),
            ),
            final(self).path_ident == ident_after(
                old(self).path_ident,
                resets_angle(args@, opt_chars(old(self).path_ident)),
            ),
        decreases args,
    {
        if args.len() == 1 {
            let phantom = match &self.path_ident {
                Some(ident) => chars_eq_str(ident, "PhantomData"),
                None => false,
            };
            if phantom {
                proof {
                    assert(gens_view(self.results@) =~= gens_view(self.results@) + Seq::<GenV>::empty());
                }
                return;
            }
            proof {
                assert(decreases_to!(args => args@[0]));
            }
            self.visit_generic_argument(&args[0]);
        } else {
            assert(gens_view(self.results@) =~= gens_view(self.results@) + Seq::<GenV>::empty());
        }
    }

    /// Walks a generic argument.
    pub fn visit_generic_argument(&mut self, arg: &GenericArgModel)
        ensures
            gens_view(final(self).results@) == gens_view(old(self).results@) + visit_generic_argument(
                *arg,
            ),
            final(self).path_ident == ident_after(old(self).path_ident, resets_generic_argument(*arg)),
        decreases arg,
    {
        let ghost before = self.results@;
        match arg {
            GenericArgModel::Type { ty } => match ty {
                TypeModel::Path { id, qself, leading_colon, segments } => {
                    if qself.is_none() && !*leading_colon {
                        if segments.len() == 1 {
                            let plain = match &segments[0].args {
                                ArgsModel::Plain => true,
                                _ => false,
                            };
                            if plain {
                                self.results.push(
                                    DebugFieldGenerics::TypeParam { name: copy_chars(&segments[0].ident) },
                                );
                                proof {
                                    lemma_gens_push(before, self.results@.last());
                                    assert(self.results@ == before.push(self.results@.last()));
                                }
                            } else {
                                proof {
                                    assert(decreases_to!(arg => segments@[0]));
                                }
                                self.visit_path_segment(&segments[0]);
                            }
                            return;
                        } else if segments.len() == 2 {
                            let plain0 = match &segments[0].args {
                                ArgsModel::Plain => true,
                                _ => false,
                            };
                            let plain1 = match &segments[1].args {
                                ArgsModel::Plain => true,
                                _ => false,
                            };
                            if plain0 && plain1 {
                                self.results.push(DebugFieldGenerics::AssocType { ty: *id });
                                proof {
                                    lemma_gens_push(before, self.results@.last());
                                    assert(self.results@ == before.push(self.results@.last()));
                                }
                                return;
                            }
                        }
                    }
                },
                _ => {},
            },
            GenericArgModel::Other => {},
        }
        assert(gens_view(self.results@) =~= gens_view(before) + Seq::<GenV>::empty());
    }
}

} // verus!

verus! {

/// An attribute on a field: its path, the span of its contents, and the id
/// of its string literal when it is written `name = "..."`.
pub struct DebugFieldAttr {
    pub path: PathModel,
    pub meta_span: SpanId,
    pub format: Option<usize>,
}

/// A named field of the struct.
pub struct DebugFieldInput {
    pub name: Vec<char>,
    pub ty: TypeModel,
    pub attrs: Vec<DebugFieldAttr>,
}

/// A field as the impl prints it: its name, the id of its format string if
/// it has one, and what its type asks to be bounded by `Debug`.
pub struct DebugField {
    pub name: Vec<char>,
    pub format: Option<usize>,
    pub generics: Vec<DebugFieldGenerics>,
}

/// The message for a `debug` attribute on a field that is not `debug = "..."`.
pub open spec fn expected_format_message() -> Seq<char> {
    "expected debug = \"...\""@
}

/// The format string the attributes of a field give (the last `#[debug = "..."]`),
/// or the error of the first malformed `#[debug ...]`.
pub open spec fn field_format(attrs: Seq<DebugFieldAttr>) -> Result<Option<usize>, ErrorV>
    decreases attrs.len(),
{
    if attrs.len() == 0 {
        Ok(None)
    } else {
        match field_format(attrs.drop_last()) {
            Err(e) => Err(e),
            Ok(f) => {
                let a = attrs.last();
                if !path_is_ident(a.path, "debug"@) {
                    Ok(f)
                } else {
                    match a.format {
                        Some(id) => Ok(Some(id)),
                        None => Err(ErrorV { span: a.meta_span, message: expected_format_message() }),
                    }
                }
            },
        }
    }
}

proof fn lemma_field_format_error(attrs: Seq<DebugFieldAttr>, k: int, e: ErrorV)
    requires
        0 <= k <= attrs.len(),
        field_format(attrs.subrange(0, k)) == Err::<Option<usize>, ErrorV>(e),
    ensures
        field_format(attrs) == Err::<Option<usize>, ErrorV>(e),
    decreases attrs.len() - k,
{
    if k < attrs.len() {
        assert(attrs.subrange(0, k + 1).drop_last() =~= attrs.subrange(0, k));
        lemma_field_format_error(attrs, k + 1, e);
    } else {
        assert(attrs.subrange(0, k) =~= attrs);
    }
}

impl DebugField {
    /// Reads a field: its format string, and what its type asks to be bounded.
    pub fn try_from(f: &DebugFieldInput) -> (r: Result<DebugField, MacroError>)
        ensures
            match r {
                Ok(d) => field_format(f.attrs@) == Ok::<Option<usize>, ErrorV>(d.format) && d.name@
                    == f.name@ && gens_view(d.generics@) == visit_type(f.ty),
                Err(e) => field_format(f.attrs@) == Err::<Option<usize>, ErrorV>(e@),
            },
    {
        let mut format: Option<usize> = None;
        let mut i: usize = 0;
        while i < f.attrs.len()
            invariant
                i <= f.attrs@.len(),
                field_format(f.attrs@.subrange(0, i as int)) == Ok::<Option<usize>, ErrorV>(format),
            decreases f.attrs.len() - i,
        {
            proof {
                assert(f.attrs@.subrange(0, i + 1).drop_last() =~= f.attrs@.subrange(0, i as int));
            }
            let a = &f.attrs[i];
            if is_ident(&a.path, "debug") {
                match a.format {
                    Some(id) => {
                        format = Some(id);
                    },
                    None => {
                        let e = MacroError {
                            span: a.meta_span,
                            message: chars_of("expected debug = \"...\""),
                        };
                        proof {
                            lemma_field_format_error(f.attrs@, i + 1, e@);
                        }
                        return Err(e);
                    },
                }
            }
            i += 1;
        }
        proof {
            assert(f.attrs@.subrange(0, f.attrs@.len() as int) =~= f.attrs@);
        }
        let mut visitor = GenericsVisitor::new();
        proof {
            assert(gens_view(visitor.results@) =~= Seq::<GenV>::empty());
        }
        visitor.visit_type(&f.ty);
        proof {
            assert(gens_view(visitor.results@) =~= visit_type(f.ty));
        }
        Ok(DebugField { name: copy_chars(&f.name), format, generics: visitor.results })
    }
}

} // verus!

verus! {

/// The message for an item other than `bound = "..."` in `#[debug(...)]`.
pub open spec fn expected_bound_message() -> Seq<char> {
    "expected debug(bound = \"...\")"@
}

/// The message for any attribute after `#[debug(bound = "...")]`.
pub open spec fn no_other_options_message() -> Seq<char> {
    "no other options accepted"@
}

/// The type of `syn`'s answers about `where` predicates: `answers(i, j)`
/// answers for the string of item `j` of attribute `i`.
pub type WhereAnswers = spec_fn(int, int) -> Result<(), Seq<char>>;

/// Whether every answer about a `where` predicate fits the string it
/// answers: `answers(i, j)` answers for the string of item `j` of
/// attribute `i`.
pub open spec fn where_answers_fit(attrs: Seq<crate::builder::AttrModel>, answers: WhereAnswers) -> bool {
    forall|i: int, j: int|
        (#[trigger] crate::builder::item_string(attrs, i, j)) is Some ==> where_answer_fits(
            crate::builder::item_string(attrs, i, j)->0,
            answers(i, j),
        )
}

/// An answer that fits every string: a refusal for the empty text, an
/// acceptance otherwise.
spec fn default_where_answer(text: Option<Seq<char>>) -> Result<(), Seq<char>> {
    match text {
        Some(t) => if t.len() == 0 {
            Err(Seq::empty())
        } else {
            Ok(())
        },
        None => Ok(()),
    }
}

/// The bound an item `bound = "..."` gives once `syn` has answered `answer`
/// about its string: the answer's error, else an error for a suffix on the
/// literal, else the string and its span.
pub open spec fn bound_answer_step(item: crate::builder::NestedMeta, answer: Result<(), Seq<char>>) -> Result<
    Option<(Seq<char>, SpanId)>,
    ErrorV,
> {
    match item.value {
        NestedValue::Invalid { error } => Err(error@),
        NestedValue::Str { value, suffix, span } => match answer {
            Err(m) => Err(ErrorV { span, message: m }),
            Ok(()) => if suffix@.len() > 0 {
                Err(ErrorV { span, message: crate::builder::suffix_message(suffix@) })
            } else {
                Ok(Some((value@, span)))
            },
        },
    }
}

/// The bound after one more item of a struct's `#[debug(...)]`.
pub open spec fn bound_step(
    attr: crate::builder::AttrModel,
    item: crate::builder::NestedMeta,
    answer: Result<(), Seq<char>>,
) -> Result<Option<(Seq<char>, SpanId)>, ErrorV> {
    if !path_is_ident(item.path, "bound"@) {
        Err(ErrorV { span: attr.meta_span, message: expected_bound_message() })
    } else {
        bound_answer_step(item, answer)
    }
}

/// The bound the items of attribute `row`, a `#[debug(...)]`, give: that of
/// the last item.
pub open spec fn bound_fold(
    attr: crate::builder::AttrModel,
    items: Seq<crate::builder::NestedMeta>,
    answers: WhereAnswers,
    row: int,
) -> Result<Option<(Seq<char>, SpanId)>, ErrorV>
    decreases items.len(),
{
    if items.len() == 0 {
        Ok(None)
    } else {
        match bound_fold(attr, items.drop_last(), answers, row) {
            Err(e) => Err(e),
            Ok(p) => match bound_step(attr, items.last(), answers(row, items.len() - 1)) {
                Err(e) => Err(e),
                Ok(q) => Ok(q),
            },
        }
    }
}

/// The bound after one more attribute of the struct, attribute `row`: an
/// error once a bound is set, else the bound a `#[debug(...)]` gives.
pub open spec fn struct_bound_step(
    acc: Result<Option<(Seq<char>, SpanId)>, ErrorV>,
    attr: crate::builder::AttrModel,
    answers: WhereAnswers,
    row: int,
) -> Result<Option<(Seq<char>, SpanId)>, ErrorV> {
    match acc {
        Err(e) => Err(e),
        Ok(Some(_)) => Err(ErrorV { span: attr.meta_span, message: no_other_options_message() }),
        Ok(None) => if !path_is_ident(attr.path, "debug"@) {
            Ok(None)
        } else {
            match attr.args {
                AttrArgs::NotAList { error } => Err(error@),
                AttrArgs::List { items, trailing } => match bound_fold(attr, items@, answers, row) {
                    Err(e) => Err(e),
                    Ok(p) => match trailing {
                        Some(t) => Err(t@),
                        None => Ok(p),
                    },
                },
            }
        },
    }
}

/// The bound the attributes of the struct give, or their error, `answers`
/// being `syn`'s answers about the strings.
pub open spec fn struct_bound(attrs: Seq<crate::builder::AttrModel>, answers: WhereAnswers) -> Result<
    Option<(Seq<char>, SpanId)>,
    ErrorV,
>
    decreases attrs.len(),
{
    if attrs.len() == 0 {
        Ok(None)
    } else {
        struct_bound_step(struct_bound(attrs.drop_last(), answers), attrs.last(), answers, attrs.len() - 1)
    }
}

proof fn lemma_struct_bound_error(attrs: Seq<crate::builder::AttrModel>, answers: WhereAnswers, k: int, e: ErrorV)
    requires
        0 <= k <= attrs.len(),
        struct_bound(attrs.subrange(0, k), answers) == Err::<Option<(Seq<char>, SpanId)>, ErrorV>(e),
    ensures
        struct_bound(attrs, answers) == Err::<Option<(Seq<char>, SpanId)>, ErrorV>(e),
    decreases attrs.len() - k,
{
    if k < attrs.len() {
        assert(attrs.subrange(0, k + 1).drop_last() =~= attrs.subrange(0, k));
        lemma_struct_bound_error(attrs, answers, k + 1, e);
    } else {
        assert(attrs.subrange(0, k) =~= attrs);
    }
}

proof fn lemma_bound_fold_error(
    attr: crate::builder::AttrModel,
    items: Seq<crate::builder::NestedMeta>,
    answers: WhereAnswers,
    row: int,
    k: int,
    e: ErrorV,
)
    requires
        0 <= k <= items.len(),
        bound_fold(attr, items.subrange(0, k), answers, row) == Err::<Option<(Seq<char>, SpanId)>, ErrorV>(e),
    ensures
        bound_fold(attr, items, answers, row) == Err::<Option<(Seq<char>, SpanId)>, ErrorV>(e),
    decreases items.len() - k,
{
    if k < items.len() {
        assert(items.subrange(0, k + 1).drop_last() =~= items.subrange(0, k));
        lemma_bound_fold_error(attr, items, answers, row, k + 1, e);
    } else {
        assert(items.subrange(0, k) =~= items);
    }
}

proof fn lemma_bound_fold_frame(
    attr: crate::builder::AttrModel,
    items: Seq<crate::builder::NestedMeta>,
    a1: WhereAnswers,
    a2: WhereAnswers,
    row: int,
)
    requires
        forall|j: int| 0 <= j < items.len() ==> #[trigger] a1(row, j) == a2(row, j),
    ensures
        bound_fold(attr, items, a1, row) == bound_fold(attr, items, a2, row),
    decreases items.len(),
{
    if items.len() > 0 {
        lemma_bound_fold_frame(attr, items.drop_last(), a1, a2, row);
    }
}

proof fn lemma_struct_bound_frame(attrs: Seq<crate::builder::AttrModel>, a1: WhereAnswers, a2: WhereAnswers)
    requires
        forall|i: int, j: int| 0 <= i < attrs.len() ==> #[trigger] a1(i, j) == a2(i, j),
    ensures
        struct_bound(attrs, a1) == struct_bound(attrs, a2),
    decreases attrs.len(),
{
    if attrs.len() > 0 {
        lemma_struct_bound_frame(attrs.drop_last(), a1, a2);
        if let AttrArgs::List { items, .. } = attrs.last().args {
            lemma_bound_fold_frame(attrs.last(), items@, a1, a2, attrs.len() - 1);
        }
    }
}

/// The bound an item `bound = "..."` gives, given `syn`'s answer about its
/// string, with the span of the string.
pub fn bound_after_answer(item: &crate::builder::NestedMeta, answer: Result<(), Vec<char>>) -> (r: Result<
    Option<(Vec<char>, SpanId)>,
    MacroError,
>)
    ensures
        match r {
            Ok(p) => bound_answer_step(*item, where_answer_view(answer)) == Ok::<Option<(Seq<char>, SpanId)>, ErrorV>(
                opt_bound(p),
            ),
            Err(e) => bound_answer_step(*item, where_answer_view(answer)) == Err::<Option<(Seq<char>, SpanId)>, ErrorV>(
                e@,
            ),
        },
{
    match &item.value {
        NestedValue::Invalid { error } => Err(copy_error(error)),
        NestedValue::Str { value, suffix, span } => match answer {
            Err(m) => Err(MacroError { span: *span, message: m }),
            Ok(()) => {
                if suffix.len() > 0 {
                    let mut message = chars_of("unexpected suffix `");
                    crate::tokens::append_chars(&mut message, suffix);
                    let tail = chars_of("` on string literal");
                    crate::tokens::append_chars(&mut message, &tail);
                    Err(MacroError { span: *span, message })
                } else {
                    Ok(Some((copy_chars(value), *span)))
                }
            },
        },
    }
}

/// The value of a bound and the span of its string.
pub open spec fn opt_bound(o: Option<(Vec<char>, SpanId)>) -> Option<(Seq<char>, SpanId)> {
    match o {
        Some((p, span)) => Some((p@, span)),
        None => None,
    }
}

/// The value of an answer of `struct_bound_exec`.
pub open spec fn bound_result_view(r: Result<Option<(Vec<char>, SpanId)>, MacroError>) -> Result<Option<(Seq<char>, SpanId)>, ErrorV> {
    match r {
        Ok(p) => Ok(opt_bound(p)),
        Err(e) => Err(e@),
    }
}

/// Reads the struct's attributes: the bound of `#[debug(bound = "...")]`, if
/// any, asking `syn` whether the string is a `where` predicate.
pub fn struct_bound_exec(attrs: &Vec<crate::builder::AttrModel>) -> (r: Result<Option<(Vec<char>, SpanId)>, MacroError>)
    ensures
        exists|answers: WhereAnswers|
            where_answers_fit(attrs@, answers) && bound_result_view(r) == struct_bound(attrs@, answers),
{
    let ghost mut answers: WhereAnswers = |i: int, j: int|
        default_where_answer(crate::builder::item_string(attrs@, i, j));
    let mut bound: Option<(Vec<char>, SpanId)> = None;
    let mut i: usize = 0;
    proof {
        assert(attrs@.subrange(0, 0) =~= Seq::<crate::builder::AttrModel>::empty());
    }
    while i < attrs.len()
        invariant
            i <= attrs@.len(),
            where_answers_fit(attrs@, answers),
            struct_bound(attrs@.subrange(0, i as int), answers) == Ok::<Option<(Seq<char>, SpanId)>, ErrorV>(opt_bound(bound)),
        decreases attrs.len() - i,
    {
        proof {
            assert(attrs@.subrange(0, i + 1).drop_last() =~= attrs@.subrange(0, i as int));
        }
        let attr = &attrs[i];
        if bound.is_some() {
            let e = MacroError { span: attr.meta_span, message: chars_of("no other options accepted") };
            proof {
                lemma_struct_bound_error(attrs@, answers, i + 1, e@);
                assert(where_answers_fit(attrs@, answers) && bound_result_view(Err(e)) == struct_bound(attrs@, answers));
            }
            return Err(e);
        }
        if is_ident(&attr.path, "debug") {
            match &attr.args {
                AttrArgs::NotAList { error } => {
                    let e = copy_error(error);
                    proof {
                        lemma_struct_bound_error(attrs@, answers, i + 1, e@);
                        assert(where_answers_fit(attrs@, answers) && bound_result_view(Err(e)) == struct_bound(attrs@, answers));
                    }
                    return Err(e);
                },
                AttrArgs::List { items, trailing } => {
                    let mut pred: Option<(Vec<char>, SpanId)> = None;
                    let mut j: usize = 0;
                    proof {
                        assert(items@.subrange(0, 0) =~= Seq::<crate::builder::NestedMeta>::empty());
                    }
                    while j < items.len()
                        invariant
                            i < attrs@.len(),
                            *attr == attrs@[i as int],
                            path_is_ident(attr.path, "debug"@),
                            attr.args == (AttrArgs::List { items: *items, trailing: *trailing }),
                            where_answers_fit(attrs@, answers),
                            struct_bound(attrs@.subrange(0, i as int), answers) == Ok::<Option<(Seq<char>, SpanId)>, ErrorV>(None),
                            attrs@.subrange(0, i + 1).drop_last() == attrs@.subrange(0, i as int),
                            j <= items@.len(),
                            bound_fold(*attr, items@.subrange(0, j as int), answers, i as int) == Ok::<
                                Option<(Seq<char>, SpanId)>,
                                ErrorV,
                            >(opt_bound(pred)),
                        decreases items.len() - j,
                    {
                        proof {
                            assert(items@.subrange(0, j + 1).drop_last() =~= items@.subrange(0, j as int));
                            assert(items@.subrange(0, j + 1).last() == items@[j as int]);
                        }
                        let item = &items[j];
                        let step: Result<Option<(Vec<char>, SpanId)>, MacroError> = if !is_ident(&item.path, "bound") {
                            Err(MacroError { span: attr.meta_span, message: chars_of("expected debug(bound = \"...\")") })
                        } else {
                            match &item.value {
                                NestedValue::Invalid { error } => Err(copy_error(error)),
                                NestedValue::Str { value, .. } => {
                                    let answer = check_where_predicate(value);
                                    let ghost a = where_answer_view(answer);
                                    let r = bound_after_answer(item, answer);
                                    proof {
                                        let before = answers;
                                        let (ri, rj) = (i as int, j as int);
                                        answers = |x: int, y: int| if x == ri && y == rj { a } else { before(x, y) };
                                        assert(crate::builder::item_string(attrs@, ri, rj) == Some(value@));
                                        assert forall|x: int, y: int| (#[trigger] crate::builder::item_string(attrs@, x, y)) is Some implies where_answer_fits(
                                            crate::builder::item_string(attrs@, x, y)->0,
                                            answers(x, y),
                                        ) by {
                                            if !(x == ri && y == rj) {
                                                assert(where_answer_fits(crate::builder::item_string(attrs@, x, y)->0, before(x, y)));
                                            }
                                        }
                                        lemma_struct_bound_frame(attrs@.subrange(0, ri), before, answers);
                                        lemma_bound_fold_frame(*attr, items@.subrange(0, rj), before, answers, ri);
                                    }
                                    r
                                },
                            }
                        };
                        proof {
                            assert(bound_fold(*attr, items@.subrange(0, j + 1), answers, i as int) == bound_result_view(step));
                        }
                        match step {
                            Err(e) => {
                                proof {
                                    lemma_bound_fold_error(*attr, items@, answers, i as int, j + 1, e@);
                                    assert(attrs@.subrange(0, i + 1).last() == *attr);
                                    assert(struct_bound(attrs@.subrange(0, i + 1), answers) == Err::<Option<(Seq<char>, SpanId)>, ErrorV>(e@));
                                    lemma_struct_bound_error(attrs@, answers, i + 1, e@);
                                    assert(where_answers_fit(attrs@, answers) && bound_result_view(Err(e)) == struct_bound(attrs@, answers));
                                }
                                return Err(e);
                            },
                            Ok(p) => {
                                pred = p;
                            },
                        }
                        j += 1;
                    }
                    proof {
                        assert(items@.subrange(0, items@.len() as int) =~= items@);
                        assert(attrs@.subrange(0, i + 1).last() == *attr);
                    }
                    match trailing {
                        Some(t) => {
                            let e = copy_error(t);
                            proof {
                                assert(struct_bound(attrs@.subrange(0, i + 1), answers) == Err::<Option<(Seq<char>, SpanId)>, ErrorV>(e@));
                                lemma_struct_bound_error(attrs@, answers, i + 1, e@);
                                assert(where_answers_fit(attrs@, answers) && bound_result_view(Err(e)) == struct_bound(attrs@, answers));
                            }
                            return Err(e);
                        },
                        None => {},
                    }
                    bound = pred;
                },
            }
        }
        proof {
            assert(attrs@.subrange(0, i + 1).last() == *attr);
            assert(struct_bound(attrs@.subrange(0, i + 1), answers) == Ok::<Option<(Seq<char>, SpanId)>, ErrorV>(opt_bound(bound)));
        }
        i += 1;
    }
    proof {
        assert(attrs@.subrange(0, attrs@.len() as int) =~= attrs@);
        assert(where_answers_fit(attrs@, answers) && bound_result_view(Ok(bound)) == struct_bound(attrs@, answers));
    }
    Ok(bound)
}

} // verus!

verus! {

/// The struct `CustomDebug` is derived for: its name, its type parameters,
/// its attributes and its named fields.
pub struct DebugInput {
    pub name: Vec<char>,
    pub type_params: Vec<Vec<char>>,
    pub attrs: Vec<crate::builder::AttrModel>,
    pub fields: Vec<DebugFieldInput>,
}

/// How a field is printed: its name, and the id of its format string.
pub struct DebugFieldPlan {
    pub name: Vec<char>,
    pub format: Option<usize>,
}

/// The bounds of the impl: for each type parameter whether it is bounded
/// by `Debug`, with the associated types to bound; or the one bound given
/// by `#[debug(bound = "...")]`, with the span of its string.
pub enum DebugBounds {
    Inferred { params: Vec<bool>, assoc: Vec<usize> },
    Explicit { predicate: Vec<char>, span: SpanId },
}

/// The `Debug` impl for a struct: its fields in order, and its bounds.
pub struct DebugPlan {
    pub fields: Vec<DebugFieldPlan>,
    pub bounds: DebugBounds,
}

/// The associated types among what a field's type asks to be bounded, in order.
pub open spec fn assoc_of(g: Seq<GenV>) -> Seq<usize>
    decreases g.len(),
{
    if g.len() == 0 {
        Seq::empty()
    } else {
        assoc_of(g.drop_last()) + match g.last() {
            GenV::AssocType { ty } => seq![ty],
            _ => Seq::empty(),
        }
    }
}

/// The associated types the fields' types ask to be bounded, field after field.
pub open spec fn assoc_of_fields(fields: Seq<DebugFieldInput>) -> Seq<usize>
    decreases fields.len(),
{
    if fields.len() == 0 {
        Seq::empty()
    } else {
        assoc_of_fields(fields.drop_last()) + assoc_of(visit_type(fields.last().ty))
    }
}

/// Whether some field's type asks for the type parameter `p` to be bounded.
pub open spec fn param_used(fields: Seq<DebugFieldInput>, p: Seq<char>) -> bool {
    exists|f: int, k: int|
        0 <= f < fields.len() && 0 <= k < visit_type(fields[f].ty).len() && #[trigger] visit_type(
            fields[f].ty,
        )[k] == (GenV::TypeParam { name: p })
}

/// Whether field `k` is the first whose attributes are in error.
pub open spec fn first_field_error(fields: Seq<DebugFieldInput>, k: int) -> bool {
    &&& 0 <= k < fields.len()
    &&& field_format(fields[k].attrs@) is Err
    &&& forall|j: int| 0 <= j < k ==> field_format(#[trigger] fields[j].attrs@) is Ok
}

/// Whether `plan` is the `Debug` impl `CustomDebug` derives for `input`,
/// given that no attribute is in error and that `answers` are `syn`'s
/// answers about `where` predicates.
pub open spec fn is_debug_plan(input: DebugInput, plan: DebugPlan, answers: WhereAnswers) -> bool {
    &&& plan.fields@.len() == input.fields@.len()
    &&& forall|j: int|
        0 <= j < input.fields@.len() ==> (#[trigger] plan.fields@[j]).name@ == input.fields@[j].name@
            && field_format(input.fields@[j].attrs@) == Ok::<Option<usize>, ErrorV>(plan.fields@[j].format)
    &&& match struct_bound(input.attrs@, answers) {
        Ok(Some(p)) => plan.bounds matches DebugBounds::Explicit { predicate, span } && predicate@ == p.0
            && span == p.1,
        Ok(None) => plan.bounds matches DebugBounds::Inferred { params, assoc } && params@.len()
            == input.type_params@.len() && (forall|k: int|
            0 <= k < params@.len() ==> #[trigger] params@[k] == param_used(
                input.fields@,
                input.type_params@[k]@,
            )) && assoc@ == assoc_of_fields(input.fields@),
        Err(_) => false,
    }
}

/// `#[derive(CustomDebug)]` on a struct with named fields: how each field is
/// printed and how the impl is bounded; or the first error, that of a
/// field's attributes before that of the struct's.
pub fn derive(input: &DebugInput) -> (r: Result<DebugPlan, MacroError>)
    ensures
        match r {
            Ok(plan) => exists|answers: WhereAnswers|
                where_answers_fit(input.attrs@, answers) && is_debug_plan(*input, plan, answers),
            Err(e) => (exists|k: int|
                first_field_error(input.fields@, k) && field_format(input.fields@[k].attrs@) == Err::<
                    Option<usize>,
                    ErrorV,
                >(e@)) || ((forall|j: int|
                0 <= j < input.fields@.len() ==> field_format(#[trigger] input.fields@[j].attrs@) is Ok)
                && exists|answers: WhereAnswers|
                where_answers_fit(input.attrs@, answers) && struct_bound(input.attrs@, answers) == Err::<
                    Option<(Seq<char>, SpanId)>,
                    ErrorV,
                >(e@)),
        },
{
    let mut fields: Vec<DebugField> = Vec::new();
    let mut i: usize = 0;
    while i < input.fields.len()
        invariant
            i <= input.fields@.len(),
            fields@.len() == i,
            forall|j: int|
                0 <= j < i ==> field_format(input.fields@[j].attrs@) == Ok::<Option<usize>, ErrorV>(
                    (#[trigger] fields@[j]).format,
                ) && fields@[j].name@ == input.fields@[j].name@ && gens_view(fields@[j].generics@)
                    == visit_type(input.fields@[j].ty),
        decreases input.fields.len() - i,
    {
        match DebugField::try_from(&input.fields[i]) {
            Ok(d) => fields.push(d),
            Err(e) => {
                proof {
                    assert forall|j: int| 0 <= j < i implies field_format(
                        #[trigger] input.fields@[j].attrs@,
                    ) is Ok by {
                        assert(fields@[j].format == fields@[j].format);
                    }
                    assert(field_format(input.fields@[i as int].attrs@) == Err::<Option<usize>, ErrorV>(
                        e@,
                    ));
                    assert(first_field_error(input.fields@, i as int));
                }
                return Err(e);
            },
        }
        i += 1;
    }
    proof {
        assert forall|j: int| 0 <= j < input.fields@.len() implies field_format(
            #[trigger] input.fields@[j].attrs@,
        ) is Ok by {
            assert(fields@[j].format == fields@[j].format);
        }
    }
    let bound_r = struct_bound_exec(&input.attrs);
    let ghost answers = choose|a: WhereAnswers|
        where_answers_fit(input.attrs@, a) && bound_result_view(bound_r) == struct_bound(input.attrs@, a);
    let bound = match bound_r {
        Ok(b) => b,
        Err(e) => {
            proof {
                assert(where_answers_fit(input.attrs@, answers) && struct_bound(input.attrs@, answers) == Err::<Option<(Seq<char>, SpanId)>, ErrorV>(e@));
            }
            return Err(e);
        },
    };
    let mut plans: Vec<DebugFieldPlan> = Vec::new();
    let mut i: usize = 0;
    while i < fields.len()
        invariant
            i <= fields@.len(),
            fields@.len() == input.fields@.len(),
            plans@.len() == i,
            forall|j: int|
                0 <= j < i ==> (#[trigger] plans@[j]).name@ == fields@[j].name@ && plans@[j].format
                    == fields@[j].format,
        decreases fields.len() - i,
    {
        plans.push(DebugFieldPlan { name: copy_chars(&fields[i].name), format: fields[i].format });
        i += 1;
    }
    let bounds = match bound {
        Some((predicate, span)) => DebugBounds::Explicit { predicate, span },
        None => {
            let params = bounded_params(&input.type_params, &fields, Ghost(input.fields@));
            let assoc = assoc_bounds(&fields, Ghost(input.fields@));
            DebugBounds::Inferred { params, assoc }
        },
    };
    let plan = DebugPlan { fields: plans, bounds };
    proof {
        assert(where_answers_fit(input.attrs@, answers) && is_debug_plan(*input, plan, answers));
    }
    Ok(plan)
}

/// For each type parameter, whether some field's type asks for it to be bounded.
fn bounded_params(
    params: &Vec<Vec<char>>,
    fields: &Vec<DebugField>,
    Ghost(inputs): Ghost<Seq<DebugFieldInput>>,
) -> (r: Vec<bool>)
    requires
        fields@.len() == inputs.len(),
        forall|j: int|
            0 <= j < fields@.len() ==> gens_view(#[trigger] fields@[j].generics@) == visit_type(
                inputs[j].ty,
            ),
    ensures
        r@.len() == params@.len(),
        forall|k: int| 0 <= k < params@.len() ==> #[trigger] r@[k] == param_used(inputs, params@[k]@),
{
    let mut r: Vec<bool> = Vec::new();
    let mut k: usize = 0;
    while k < params.len()
        invariant
            k <= params@.len(),
            r@.len() == k,
            fields@.len() == inputs.len(),
            forall|j: int|
                0 <= j < fields@.len() ==> gens_view(#[trigger] fields@[j].generics@) == visit_type(
                    inputs[j].ty,
                ),
            forall|m: int| 0 <= m < k ==> #[trigger] r@[m] == param_used(inputs, params@[m]@),
        decreases params.len() - k,
    {
        let p = &params[k];
        let mut found = false;
        let mut f: usize = 0;
        while f < fields.len() && !found
            invariant
                f <= fields@.len(),
                fields@.len() == inputs.len(),
                forall|j: int|
                    0 <= j < fields@.len() ==> gens_view(#[trigger] fields@[j].generics@) == visit_type(
                        inputs[j].ty,
                    ),
                found ==> param_used(inputs, p@),
                !found ==> forall|g: int, m: int|
                    0 <= g < f && 0 <= m < visit_type(inputs[g].ty).len() ==> #[trigger] visit_type(
                        inputs[g].ty,
                    )[m] != (GenV::TypeParam { name: p@ }),
            decreases fields.len() - f,
        {
            let gens = &fields[f].generics;
            proof {
                assert(gens_view(fields@[f as int].generics@) == visit_type(inputs[f as int].ty));
            }
            let mut m: usize = 0;
            while m < gens.len() && !found
                invariant
                    f < fields@.len(),
                    fields@.len() == inputs.len(),
                    *gens == fields@[f as int].generics,
                    gens_view(gens@) == visit_type(inputs[f as int].ty),
                    m <= gens@.len(),
                    found ==> param_used(inputs, p@),
                    !found ==> forall|q: int| 0 <= q < m ==> #[trigger] gens_view(gens@)[q] != (GenV::TypeParam { name: p@ }),
                decreases gens.len() - m,
            {
                match &gens[m] {
                    DebugFieldGenerics::TypeParam { name } => {
                        if chars_eq(name, p) {
                            found = true;
                            proof {
                                assert(gens_view(gens@)[m as int] == gen_view(gens@[m as int]));
                                assert(visit_type(inputs[f as int].ty)[m as int] == (GenV::TypeParam { name: p@ }));
                                assert(0 <= f < inputs.len());
                                assert(0 <= m < visit_type(inputs[f as int].ty).len());
                                assert(param_used(inputs, p@));
                            }
                        }
                    },
                    _ => {},
                }
                m += 1;
            }
            f += 1;
        }
        r.push(found);
        k += 1;
    }
    r
}

/// The associated types the fields' types ask to be bounded, field after field.
fn assoc_bounds(fields: &Vec<DebugField>, Ghost(inputs): Ghost<Seq<DebugFieldInput>>) -> (r: Vec<usize>)
    requires
        fields@.len() == inputs.len(),
        forall|j: int|
            0 <= j < fields@.len() ==> gens_view(#[trigger] fields@[j].generics@) == visit_type(
                inputs[j].ty,
            ),
    ensures
        r@ == assoc_of_fields(inputs),
{
    let mut r: Vec<usize> = Vec::new();
    let mut f: usize = 0;
    proof {
        assert(inputs.subrange(0, 0) =~= Seq::<DebugFieldInput>::empty());
    }
    while f < fields.len()
        invariant
            f <= fields@.len(),
            fields@.len() == inputs.len(),
            forall|j: int|
                0 <= j < fields@.len() ==> gens_view(#[trigger] fields@[j].generics@) == visit_type(
                    inputs[j].ty,
                ),
            r@ == assoc_of_fields(inputs.subrange(0, f as int)),
        decreases fields.len() - f,
    {
        let gens = &fields[f].generics;
        let ghost gv = gens_view(gens@);
        proof {
            assert(gv == visit_type(inputs[f as int].ty));
            assert(inputs.subrange(0, f + 1).drop_last() =~= inputs.subrange(0, f as int));
            assert(gv.subrange(0, 0) =~= Seq::<GenV>::empty());
        }
        let ghost base = r@;
        let mut m: usize = 0;
        while m < gens.len()
            invariant
                m <= gens@.len(),
                gv == gens_view(gens@),
                r@ == base + assoc_of(gv.subrange(0, m as int)),
            decreases gens.len() - m,
        {
            proof {
                assert(gv.subrange(0, m + 1).drop_last() =~= gv.subrange(0, m as int));
            }
            match &gens[m] {
                DebugFieldGenerics::AssocType { ty } => {
                    r.push(*ty);
                    proof {
                        assert(r@ =~= base + assoc_of(gv.subrange(0, m + 1)));
                    }
                },
                _ => {
                    proof {
                        assert(base + assoc_of(gv.subrange(0, m + 1)) =~= base + assoc_of(gv.subrange(0, m as int)));
                    }
                },
            }
            m += 1;
        }
        proof {
            assert(gv.subrange(0, gv.len() as int) =~= gv);
            assert(r@ =~= assoc_of_fields(inputs.subrange(0, f + 1)));
        }
        f += 1;
    }
    proof {
        assert(inputs.subrange(0, inputs.len() as int) =~= inputs);
    }
    r
}

} // verus!

verus! {

proof fn lemma_visit_types_has_part(ts: Seq<TypeModel>, c: int, k: int)
    requires
        0 <= c < ts.len(),
        0 <= k < visit_type(ts[c]).len(),
    ensures
        visit_types(ts).contains(visit_type(ts[c])[k]),
    decreases ts.len(),
{
    let whole = visit_types(ts);
    let rest = visit_types(ts.drop_last());
    let last = visit_type(ts.last());
    assert(whole == rest + last);
    if c == ts.len() - 1 {
        assert(whole[rest.len() + k] == last[k]);
    } else {
        lemma_visit_types_has_part(ts.drop_last(), c, k);
        assert(ts.drop_last()[c] == ts[c]);
        let n = choose|n: int| 0 <= n < rest.len() && rest[n] == visit_type(ts[c])[k];
        assert(whole[n] == rest[n]);
    }
}

proof fn lemma_visit_types_from_part(ts: Seq<TypeModel>, n: int)
    requires
        0 <= n < visit_types(ts).len(),
    ensures
        exists|c: int, k: int|
            0 <= c < ts.len() && 0 <= k < visit_type(ts[c]).len() && #[trigger] visit_type(ts[c])[k]
                == visit_types(ts)[n],
    decreases ts.len(),
{
    let rest = visit_types(ts.drop_last());
    let last = visit_type(ts.last());
    assert(visit_types(ts) == rest + last);
    if n < rest.len() {
        lemma_visit_types_from_part(ts.drop_last(), n);
        let (c, k) = choose|c: int, k: int|
            0 <= c < ts.drop_last().len() && 0 <= k < visit_type(ts.drop_last()[c]).len() && #[trigger] visit_type(
                ts.drop_last()[c],
            )[k] == rest[n];
        assert(ts.drop_last()[c] == ts[c]);
        assert(visit_type(ts[c])[k] == visit_types(ts)[n]);
    } else {
        let c = ts.len() - 1;
        let k = n - rest.len();
        assert(visit_type(ts[c])[k] == visit_types(ts)[n]);
    }
}

/// A type that is not a path (a reference, a tuple, an array, a slice...)
/// asks for what its inner types ask for: whatever an inner type asks to be
/// bounded, the whole type asks for too, so a type parameter written inside
/// `&'a T`, `[T; N]` or `(T, U)` is found.
pub proof fn law_compound_type_asks_what_its_parts_ask(t: TypeModel, c: int, k: int)
    requires
        t matches TypeModel::Other { children, .. } && 0 <= c < children@.len() && 0 <= k < visit_type(
            children@[c],
        ).len(),
    ensures
        visit_type(t).contains(visit_type(t->Other_children@[c])[k]),
{
    lemma_visit_types_has_part(t->Other_children@, c, k);
}

/// A type that is not a path asks for nothing but what its inner types ask
/// for: each thing it asks to be bounded is asked by one of them.
pub proof fn law_compound_type_asks_only_what_its_parts_ask(t: TypeModel, n: int)
    requires
        t is Other,
        0 <= n < visit_type(t).len(),
    ensures
        exists|c: int, k: int|
            0 <= c < t->Other_children@.len() && 0 <= k < visit_type(t->Other_children@[c]).len()
                && #[trigger] visit_type(t->Other_children@[c])[k] == visit_type(t)[n],
{
    lemma_visit_types_from_part(t->Other_children@, n);
}

/// A type parameter written inside a field's type that is not a path (such
/// as `value: &'a T`) is used, and so gets a `Debug` bound.
pub proof fn law_param_inside_compound_field_is_used(fields: Seq<DebugFieldInput>, f: int, c: int)
    requires
        0 <= f < fields.len(),
        fields[f].ty is Other,
        0 <= c < fields[f].ty->Other_children@.len(),
        fields[f].ty->Other_children@[c] matches TypeModel::Path { qself, segments, .. } && qself is None
            && segments@.len() == 1 && segments@[0].args is Plain,
    ensures
        param_used(fields, fields[f].ty->Other_children@[c]->Path_segments@[0].ident@),
{
    let t = fields[f].ty;
    let inner = t->Other_children@[c];
    let segs = inner->Path_segments@;
    let p = segs[0].ident@;
    assert(segs.drop_last().len() == 0);
    assert(visit_segments(segs) =~= visit_segments(segs.drop_last()) + visit_path_segment(segs[0]));
    assert(visit_type(inner) =~= seq![GenV::TypeParam { name: p }]);
    lemma_visit_types_has_part(t->Other_children@, c, 0);
    let n = choose|n: int| 0 <= n < visit_type(t).len() && visit_type(t)[n] == (GenV::TypeParam { name: p });
    assert(visit_type(fields[f].ty)[n] == (GenV::TypeParam { name: p }));
}

proof fn lemma_assoc_of_has(g: Seq<GenV>, k: int)
    requires
        0 <= k < g.len(),
        g[k] is AssocType,
    ensures
        assoc_of(g).contains(g[k]->AssocType_ty),
    decreases g.len(),
{
    let rest = assoc_of(g.drop_last());
    if k == g.len() - 1 {
        assert(assoc_of(g)[rest.len() as int] == g[k]->AssocType_ty);
    } else {
        lemma_assoc_of_has(g.drop_last(), k);
        assert(g.drop_last()[k] == g[k]);
        let n = choose|n: int| 0 <= n < rest.len() && rest[n] == g[k]->AssocType_ty;
        assert(assoc_of(g)[n] == rest[n]);
    }
}

proof fn lemma_assoc_of_from(g: Seq<GenV>, n: int)
    requires
        0 <= n < assoc_of(g).len(),
    ensures
        exists|k: int| 0 <= k < g.len() && #[trigger] g[k] == (GenV::AssocType { ty: assoc_of(g)[n] }),
    decreases g.len(),
{
    let rest = assoc_of(g.drop_last());
    if n < rest.len() {
        lemma_assoc_of_from(g.drop_last(), n);
        let k = choose|k: int| 0 <= k < g.drop_last().len() && #[trigger] g.drop_last()[k] == (GenV::AssocType { ty: rest[n] });
        assert(g[k] == g.drop_last()[k]);
    } else {
        assert(g.last() is AssocType);
        assert(g[g.len() - 1] == (GenV::AssocType { ty: assoc_of(g)[n] }));
    }
}

/// The associated types of two runs of fields, one after the other, are
/// those of the first run followed by those of the second: the list keeps
/// every field's associated types, in the order of the fields.
pub proof fn law_assoc_of_fields_in_order(a: Seq<DebugFieldInput>, b: Seq<DebugFieldInput>)
    ensures
        assoc_of_fields(a + b) == assoc_of_fields(a) + assoc_of_fields(b),
    decreases b.len(),
{
    if b.len() == 0 {
        assert(a + b =~= a);
        assert(assoc_of_fields(b) =~= Seq::<usize>::empty());
        assert(assoc_of_fields(a) + assoc_of_fields(b) =~= assoc_of_fields(a));
    } else {
        law_assoc_of_fields_in_order(a, b.drop_last());
        assert((a + b).drop_last() =~= a + b.drop_last());
        assert((a + b).last() == b.last());
        assert(assoc_of_fields(a + b) =~= assoc_of_fields(a) + assoc_of_fields(b));
    }
}

/// Every associated type some field's type asks for is bounded: it is in
/// the list of associated types of the fields, whichever field it is in.
pub proof fn law_every_field_assoc_type_is_bounded(fields: Seq<DebugFieldInput>, f: int, k: int)
    requires
        0 <= f < fields.len(),
        0 <= k < visit_type(fields[f].ty).len(),
        visit_type(fields[f].ty)[k] is AssocType,
    ensures
        assoc_of_fields(fields).contains(visit_type(fields[f].ty)[k]->AssocType_ty),
    decreases fields.len(),
{
    let rest = assoc_of_fields(fields.drop_last());
    let ty = visit_type(fields[f].ty)[k]->AssocType_ty;
    if f == fields.len() - 1 {
        lemma_assoc_of_has(visit_type(fields[f].ty), k);
        let n = choose|n: int| 0 <= n < assoc_of(visit_type(fields[f].ty)).len() && assoc_of(visit_type(fields[f].ty))[n] == ty;
        assert(assoc_of_fields(fields)[rest.len() + n] == ty);
    } else {
        assert(fields.drop_last()[f] == fields[f]);
        law_every_field_assoc_type_is_bounded(fields.drop_last(), f, k);
        let n = choose|n: int| 0 <= n < rest.len() && rest[n] == ty;
        assert(assoc_of_fields(fields)[n] == ty);
    }
}

/// Only associated types the fields ask for are bounded: each entry of the
/// list is an associated type some field's type asks for.
pub proof fn law_bounded_assoc_types_come_from_fields(fields: Seq<DebugFieldInput>, n: int)
    requires
        0 <= n < assoc_of_fields(fields).len(),
    ensures
        exists|f: int, k: int|
            0 <= f < fields.len() && 0 <= k < visit_type(fields[f].ty).len() && #[trigger] visit_type(
                fields[f].ty,
            )[k] == (GenV::AssocType { ty: assoc_of_fields(fields)[n] }),
    decreases fields.len(),
{
    let rest = assoc_of_fields(fields.drop_last());
    if n < rest.len() {
        law_bounded_assoc_types_come_from_fields(fields.drop_last(), n);
        let (f, k) = choose|f: int, k: int|
            0 <= f < fields.drop_last().len() && 0 <= k < visit_type(fields.drop_last()[f].ty).len()
                && #[trigger] visit_type(fields.drop_last()[f].ty)[k] == (GenV::AssocType { ty: rest[n] });
        assert(fields.drop_last()[f] == fields[f]);
        assert(visit_type(fields[f].ty)[k] == (GenV::AssocType { ty: assoc_of_fields(fields)[n] }));
    } else {
        let g = visit_type(fields.last().ty);
        lemma_assoc_of_from(g, n - rest.len());
        let k = choose|k: int| 0 <= k < g.len() && #[trigger] g[k] == (GenV::AssocType { ty: assoc_of(g)[n - rest.len()] });
        assert(visit_type(fields[fields.len() - 1].ty)[k] == (GenV::AssocType { ty: assoc_of_fields(fields)[n] }));
    }
}

/// A derived impl without `#[debug(bound = "...")]` bounds every associated
/// type any field asks for, and every type parameter any field uses.
pub proof fn law_inferred_bounds_cover_every_field(
    input: DebugInput,
    plan: DebugPlan,
    answers: WhereAnswers,
    f: int,
    k: int,
)
    requires
        is_debug_plan(input, plan, answers),
        plan.bounds is Inferred,
        0 <= f < input.fields@.len(),
        0 <= k < visit_type(input.fields@[f].ty).len(),
    ensures
        match visit_type(input.fields@[f].ty)[k] {
            GenV::AssocType { ty } => plan.bounds->Inferred_assoc@.contains(ty),
            GenV::TypeParam { name } => forall|i: int|
                0 <= i < input.type_params@.len() && #[trigger] input.type_params@[i]@ == name
                    ==> plan.bounds->Inferred_params@[i],
        },
{
    let g = visit_type(input.fields@[f].ty)[k];
    assert(struct_bound(input.attrs@, answers) matches Ok(None));
    match g {
        GenV::AssocType { ty } => {
            law_every_field_assoc_type_is_bounded(input.fields@, f, k);
        },
        GenV::TypeParam { name } => {
            assert forall|i: int|
                0 <= i < input.type_params@.len() && #[trigger] input.type_params@[i]@ == name
                    implies plan.bounds->Inferred_params@[i] by {
                assert(visit_type(input.fields@[f].ty)[k] == (GenV::TypeParam { name: input.type_params@[i]@ }));
                assert(param_used(input.fields@, input.type_params@[i]@));
            }
        },
    }
}

/// A field whose type is a lone name `T` (one segment, no arguments, no
/// `qself`) asks for `T` to be bounded, and for nothing else.
pub proof fn law_lone_name_type_asks_for_itself(t: TypeModel)
    requires
        t matches TypeModel::Path { qself, segments, .. } && qself is None && segments@.len() == 1
            && segments@[0].args is Plain,
    ensures
        visit_type(t) == seq![GenV::TypeParam { name: t->Path_segments@[0].ident@ }],
{
    let segs = t->Path_segments@;
    assert(segs.drop_last().len() == 0);
    assert(visit_segments(segs) =~= visit_segments(segs.drop_last()) + visit_path_segment(segs[0]));
    assert(visit_type(t) =~= seq![GenV::TypeParam { name: segs[0].ident@ }]);
}

/// A segment with one generic argument, other than `PhantomData<...>`,
/// asks for what its argument names: a lone name `T` asks for `T`, and a
/// two-segment name `T::Value` asks for that associated type (by its node).
pub proof fn law_single_argument_is_found(seg: SegmentModel)
    requires
        seg.args matches ArgsModel::AngleBracketed { args } && args@.len() == 1,
        seg.ident@ != "PhantomData"@,
        seg.args->AngleBracketed_args@[0] matches GenericArgModel::Type { ty } && ty matches TypeModel::Path {
            qself,
            leading_colon,
            ..
        } && qself is None && !leading_colon,
    ensures
        ({
            let ty = seg.args->AngleBracketed_args@[0]->Type_ty;
            let segs = ty->Path_segments@;
            &&& segs.len() == 1 && segs[0].args is Plain ==> visit_path_segment(seg) == seq![
                GenV::TypeParam { name: segs[0].ident@ },
            ]
            &&& segs.len() == 2 && segs[0].args is Plain && segs[1].args is Plain ==> visit_path_segment(
                seg,
            ) == seq![GenV::AssocType { ty: ty->Path_id }]
        }),
{
}

} // verus!
