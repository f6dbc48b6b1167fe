//! `#[derive(Builder)]`: a builder struct with a setter per field, a
//! `build` method, and `builder()` on the struct.
//!
//! A field of type `Option<T>` may stay unset; a field marked
//! `#[builder(each = "name")]` is a `Vec` filled one item at a time by the
//! method `name`. This module decides, field by field, what the builder
//! holds and does; the caller writes the code.
use crate::syn_calls::{ident_answer_fits, ident_answer_view, parse_ident};
use crate::syntax::{is_ident, path_is_ident, single_type_argument, single_type_argument_of, type_id, type_id_of, PathModel, TypeModel};
use crate::tokens::{append_chars, chars_eq, chars_of, copy_chars, unraw, unraw_chars, ErrorV, MacroError, SpanId};
use vstd::prelude::*;

verus! {

/// One item `key = value` inside `#[builder(...)]`: its path, the span of
/// the item, and its value.
pub struct NestedMeta {
    pub path: PathModel,
    pub span: SpanId,
    pub value: NestedValue,
}

/// The value of an item: a string literal (its value, its suffix, empty
/// for most literals, and its span), or what the parser reported when there
/// is no `= "..."`.
pub enum NestedValue {
    Str { value: Vec<char>, suffix: Vec<char>, span: SpanId },
    Invalid { error: MacroError },
}

/// The arguments of an attribute: a parenthesized list of items (and the
/// parser's error after the last item read, if any), or the parser's error
/// when the attribute has no parenthesized list.
pub enum AttrArgs {
    List { items: Vec<NestedMeta>, trailing: Option<MacroError> },
    NotAList { error: MacroError },
}

/// An attribute on a field: its path, the span of its contents, and its arguments.
pub struct AttrModel {
    pub path: PathModel,
    pub meta_span: SpanId,
    pub args: AttrArgs,
}

/// The name given by `each = "..."`, and the span of the string.
pub struct EachName {
    pub name: Vec<char>,
    pub span: SpanId,
}

/// The value of an `EachName`.
pub struct EachNameV {
    pub name: Seq<char>,
    pub span: SpanId,
}

impl View for EachName {
    type V = EachNameV;

    open spec fn view(&self) -> EachNameV {
        EachNameV { name: self.name@, span: self.span }
    }
}

/// The message for an item other than `each = "..."`.
pub open spec fn expected_each_message() -> Seq<char> {
    "expected `builder(each = \"...\")`"@
}

/// The message for a second `each`.
pub open spec fn each_twice_message() -> Seq<char> {
    "each specified already"@
}

/// The message for a string literal with a suffix.
pub open spec fn suffix_message(suffix: Seq<char>) -> Seq<char> {
    "unexpected suffix `"@ + suffix + "` on string literal"@
}

/// The `each` name after reading `each = "..."` (the item `item`, whose
/// value is a string literal), once `syn` has answered `answer` for the
/// string's value as an identifier.
pub open spec fn each_answer_step(
    each: Option<EachNameV>,
    item: NestedMeta,
    answer: Result<Seq<char>, Seq<char>>,
) -> Result<Option<EachNameV>, ErrorV> {
    match item.value {
        NestedValue::Str { suffix, span, .. } => match answer {
            Err(m) => Err(ErrorV { span, message: m }),
            Ok(name) => if suffix@.len() > 0 {
                Err(ErrorV { span, message: suffix_message(suffix@) })
            } else if each is Some {
                Err(ErrorV { span: item.span, message: each_twice_message() })
            } else {
                Ok(Some(EachNameV { name, span }))
            },
        },
        NestedValue::Invalid { error } => Err(error@),
    }
}

/// The `each` name after reading one more item of `#[builder(...)]`,
/// `answer` being `syn`'s answer for the item's string, when it is asked.
pub open spec fn nested_step(
    attr: AttrModel,
    each: Option<EachNameV>,
    item: NestedMeta,
    answer: Result<Seq<char>, Seq<char>>,
) -> Result<Option<EachNameV>, ErrorV> {
    if !path_is_ident(item.path, "each"@) {
        Err(ErrorV { span: attr.meta_span, message: expected_each_message() })
    } else {
        each_answer_step(each, item, answer)
    }
}

/// The `each` name after reading the items `items` of attribute `row`,
/// `answers(row, j)` being `syn`'s answer for item `j`.
pub open spec fn nested_fold(
    attr: AttrModel,
    each: Option<EachNameV>,
    items: Seq<NestedMeta>,
    answers: spec_fn(int, int) -> Result<Seq<char>, Seq<char>>,
    row: int,
) -> Result<Option<EachNameV>, ErrorV>
    decreases items.len(),
{
    if items.len() == 0 {
        Ok(each)
    } else {
        match nested_fold(attr, each, items.drop_last(), answers, row) {
            Err(e) => Err(e),
            Ok(e2) => nested_step(attr, e2, items.last(), answers(row, items.len() - 1)),
        }
    }
}

/// The `each` name after reading one more attribute of a field, the
/// attribute `row`.
pub open spec fn attr_step(
    each: Option<EachNameV>,
    attr: AttrModel,
    answers: spec_fn(int, int) -> Result<Seq<char>, Seq<char>>,
    row: int,
) -> Result<Option<EachNameV>, ErrorV> {
    if !path_is_ident(attr.path, "builder"@) {
        Ok(each)
    } else {
        match attr.args {
            AttrArgs::NotAList { error } => Err(error@),
            AttrArgs::List { items, trailing } => match nested_fold(attr, each, items@, answers, row) {
                Err(e) => Err(e),
                Ok(e2) => match trailing {
                    Some(t) => Err(t@),
                    None => Ok(e2),
                },
            },
        }
    }
}

/// The `each` name the attributes of a field give, or the error in them,
/// `answers(i, j)` being `syn`'s answer for the string of item `j` of
/// attribute `i`.
pub open spec fn each_config_with(
    attrs: Seq<AttrModel>,
    answers: spec_fn(int, int) -> Result<Seq<char>, Seq<char>>,
) -> Result<Option<EachNameV>, ErrorV>
    decreases attrs.len(),
{
    if attrs.len() == 0 {
        Ok(None)
    } else {
        match each_config_with(attrs.drop_last(), answers) {
            Err(e) => Err(e),
            Ok(each) => attr_step(each, attrs.last(), answers, attrs.len() - 1),
        }
    }
}

/// The string of item `j` of attribute `i`, when there is one.
pub open spec fn item_string(attrs: Seq<AttrModel>, i: int, j: int) -> Option<Seq<char>> {
    if 0 <= i < attrs.len() && (attrs[i].args matches AttrArgs::List { items, .. } && 0 <= j
        < items@.len() && items@[j].value is Str) {
        Some(attrs[i].args->items@[j].value->value@)
    } else {
        None
    }
}

/// Whether every answer fits the string it answers.
pub open spec fn answers_fit(
    attrs: Seq<AttrModel>,
    answers: spec_fn(int, int) -> Result<Seq<char>, Seq<char>>,
) -> bool {
    forall|i: int, j: int|
        (#[trigger] item_string(attrs, i, j)) is Some ==> ident_answer_fits(
            item_string(attrs, i, j)->0,
            answers(i, j),
        )
}

/// Whether `r` can be the `each` name the attributes of a field give, or
/// the error in them: where `syn` is asked whether a string is an
/// identifier, its answer is any that fits the string; for a plain ASCII
/// identifier and for a reserved word there is one.
pub open spec fn each_config(attrs: Seq<AttrModel>, r: Result<Option<EachNameV>, ErrorV>) -> bool {
    exists|answers: spec_fn(int, int) -> Result<Seq<char>, Seq<char>>|
        answers_fit(attrs, answers) && #[trigger] each_config_with(attrs, answers) == r
}

/// The value of an optional `EachName`.
pub open spec fn each_view(e: Option<EachName>) -> Option<EachNameV> {
    match e {
        Some(n) => Some(n@),
        None => None,
    }
}

/// The value of an answer about an `each` name.
pub open spec fn each_answer_view(r: Result<Option<EachName>, MacroError>) -> Result<Option<EachNameV>, ErrorV> {
    match r {
        Ok(e) => Ok(each_view(e)),
        Err(e) => Err(e@),
    }
}

/// The configuration `#[builder(...)]` gives a field.
pub struct BuilderFieldConfig {
    pub each: Option<EachName>,
}

/// An answer that fits every string: a refusal for a reserved word, the
/// string itself otherwise.
spec fn default_answer(text: Option<Seq<char>>) -> Result<Seq<char>, Seq<char>> {
    match text {
        Some(t) => if crate::syn_calls::is_reserved_word(t) {
            Err(Seq::empty())
        } else {
            Ok(t)
        },
        None => Err(Seq::empty()),
    }
}

proof fn lemma_each_config_error(
    attrs: Seq<AttrModel>,
    answers: spec_fn(int, int) -> Result<Seq<char>, Seq<char>>,
    k: int,
    e: ErrorV,
)
    requires
        0 <= k <= attrs.len(),
        each_config_with(attrs.subrange(0, k), answers) == Err::<Option<EachNameV>, ErrorV>(e),
    ensures
        each_config_with(attrs, answers) == Err::<Option<EachNameV>, ErrorV>(e),
    decreases attrs.len() - k,
{
    if k < attrs.len() {
        assert(attrs.subrange(0, k + 1).drop_last() =~= attrs.subrange(0, k));
        lemma_each_config_error(attrs, answers, k + 1, e);
    } else {
        assert(attrs.subrange(0, k) =~= attrs);
    }
}

proof fn lemma_nested_fold_error(
    attr: AttrModel,
    each: Option<EachNameV>,
    items: Seq<NestedMeta>,
    answers: spec_fn(int, int) -> Result<Seq<char>, Seq<char>>,
    row: int,
    k: int,
    e: ErrorV,
)
    requires
        0 <= k <= items.len(),
        nested_fold(attr, each, items.subrange(0, k), answers, row) == Err::<Option<EachNameV>, ErrorV>(e),
    ensures
        nested_fold(attr, each, items, answers, row) == Err::<Option<EachNameV>, ErrorV>(e),
    decreases items.len() - k,
{
    if k < items.len() {
        assert(items.subrange(0, k + 1).drop_last() =~= items.subrange(0, k));
        lemma_nested_fold_error(attr, each, items, answers, row, k + 1, e);
    } else {
        assert(items.subrange(0, k) =~= items);
    }
}

proof fn lemma_nested_fold_frame(
    attr: AttrModel,
    each: Option<EachNameV>,
    items: Seq<NestedMeta>,
    a1: spec_fn(int, int) -> Result<Seq<char>, Seq<char>>,
    a2: spec_fn(int, int) -> Result<Seq<char>, Seq<char>>,
    row: int,
)
    requires
        forall|j: int| 0 <= j < items.len() ==> #[trigger] a1(row, j) == a2(row, j),
    ensures
        nested_fold(attr, each, items, a1, row) == nested_fold(attr, each, items, a2, row),
    decreases items.len(),
{
    if items.len() > 0 {
        lemma_nested_fold_frame(attr, each, items.drop_last(), a1, a2, row);
    }
}

proof fn lemma_each_config_frame(
    attrs: Seq<AttrModel>,
    a1: spec_fn(int, int) -> Result<Seq<char>, Seq<char>>,
    a2: spec_fn(int, int) -> Result<Seq<char>, Seq<char>>,
)
    requires
        forall|i: int, j: int| 0 <= i < attrs.len() ==> #[trigger] a1(i, j) == a2(i, j),
    ensures
        each_config_with(attrs, a1) == each_config_with(attrs, a2),
    decreases attrs.len(),
{
    if attrs.len() > 0 {
        lemma_each_config_frame(attrs.drop_last(), a1, a2);
        let last = attrs.last();
        if let AttrArgs::List { items, .. } = last.args {
            match each_config_with(attrs.drop_last(), a1) {
                Ok(e) => lemma_nested_fold_frame(last, e, items@, a1, a2, attrs.len() - 1),
                Err(_) => {},
            }
        }
    }
}

/// The `each` name after reading `each = "..."`, given `syn`'s answer for
/// the string's value as an identifier: its error, else an error for a
/// suffix on the literal or a second `each`, else the name.
pub fn each_after_answer(
    each: &Option<EachName>,
    item: &NestedMeta,
    answer: Result<Vec<char>, Vec<char>>,
) -> (r: Result<Option<EachName>, MacroError>)
    requires
        item.value is Str,
    ensures
        each_answer_view(r) == each_answer_step(each_view(*each), *item, ident_answer_view(answer)),
{
    match &item.value {
        NestedValue::Str { suffix, span, .. } => match answer {
            Err(m) => Err(MacroError { span: *span, message: m }),
            Ok(name) => {
                if suffix.len() > 0 {
                    let mut message = chars_of("unexpected suffix `");
                    append_chars(&mut message, suffix);
                    let tail = chars_of("` on string literal");
                    append_chars(&mut message, &tail);
                    Err(MacroError { span: *span, message })
                } else if each.is_some() {
                    Err(MacroError { span: item.span, message: chars_of("each specified already") })
                } else {
                    Ok(Some(EachName { name, span: *span }))
                }
            },
        },
        NestedValue::Invalid { error } => Err(copy_error(error)),
    }
}

impl BuilderFieldConfig {
    /// Reads the `#[builder(each = "...")]` attributes of a field, asking
    /// `syn` whether each `each` string is an identifier.
    pub fn try_from(attrs: &Vec<AttrModel>) -> (r: Result<BuilderFieldConfig, MacroError>)
        ensures
            match r {
                Ok(c) => each_config(attrs@, Ok::<Option<EachNameV>, ErrorV>(each_view(c.each))),
                Err(e) => each_config(attrs@, Err::<Option<EachNameV>, ErrorV>(e@)),
            },
    {
        let ghost mut answers: spec_fn(int, int) -> Result<Seq<char>, Seq<char>> = |i: int, j: int|
            default_answer(item_string(attrs@, i, j));
        let mut each: Option<EachName> = None;
        let mut i: usize = 0;
        proof {
            assert(attrs@.subrange(0, 0) =~= Seq::<AttrModel>::empty());
            assert forall|x: int, y: int| (#[trigger] item_string(attrs@, x, y)) is Some implies ident_answer_fits(item_string(attrs@, x, y)->0, answers(x, y)) by {}
        }
        while i < attrs.len()
            invariant
                i <= attrs@.len(),
                answers_fit(attrs@, answers),
                each_config_with(attrs@.subrange(0, i as int), answers) == Ok::<Option<EachNameV>, ErrorV>(each_view(each)),
            decreases attrs.len() - i,
        {
            proof {
                assert(attrs@.subrange(0, i + 1).drop_last() =~= attrs@.subrange(0, i as int));
            }
            let ghost start = each_view(each);
            let attr = &attrs[i];
            if is_ident(&attr.path, "builder") {
                match &attr.args {
                    AttrArgs::NotAList { error } => {
                        let r = copy_error(error);
                        proof {
                            lemma_each_config_error(attrs@, answers, i + 1, r@);
                            assert(answers_fit(attrs@, answers) && each_config_with(attrs@, answers) == Err::<Option<EachNameV>, ErrorV>(r@));
                        }
                        return Err(r);
                    },
                    AttrArgs::List { items, trailing } => {
                        let mut j: usize = 0;
                        proof {
                            assert(items@.subrange(0, 0) =~= Seq::<NestedMeta>::empty());
                        }
                        while j < items.len()
                            invariant
                                i < attrs@.len(),
                                *attr == attrs@[i as int],
                                path_is_ident(attr.path, "builder"@),
                                attr.args == (AttrArgs::List { items: *items, trailing: *trailing }),
                                answers_fit(attrs@, answers),
                                each_config_with(attrs@.subrange(0, i as int), answers) == Ok::<Option<EachNameV>, ErrorV>(start),
                                attrs@.subrange(0, i + 1).drop_last() == attrs@.subrange(0, i as int),
                                j <= items@.len(),
                                nested_fold(*attr, start, items@.subrange(0, j as int), answers, i as int)
                                    == Ok::<Option<EachNameV>, ErrorV>(each_view(each)),
                            decreases items.len() - j,
                        {
                            proof {
                                assert(items@.subrange(0, j + 1).drop_last() =~= items@.subrange(
                                    0,
                                    j as int,
                                ));
                                assert(items@.subrange(0, j + 1).last() == items@[j as int]);
                            }
                            let ghost before = each_view(each);
                            let item = &items[j];
                            let step: Result<Option<EachName>, MacroError> = if !is_ident(&item.path, "each") {
                                Err(
                                    MacroError {
                                        span: attr.meta_span,
                                        message: chars_of("expected `builder(each = \"...\")`"),
                                    },
                                )
                            } else {
                                match &item.value {
                                    NestedValue::Invalid { error } => Err(copy_error(error)),
                                    NestedValue::Str { value, .. } => {
                                        let answer = parse_ident(value);
                                        let ghost a = ident_answer_view(answer);
                                        let r = each_after_answer(&each, item, answer);
                                        proof {
                                            let old_answers = answers;
                                            let (ri, rj) = (i as int, j as int);
                                            answers = |x: int, y: int| if x == ri && y == rj { a } else { old_answers(x, y) };
                                            assert(item_string(attrs@, ri, rj) == Some(value@));
                                            assert forall|x: int, y: int| (#[trigger] item_string(attrs@, x, y)) is Some implies ident_answer_fits(item_string(attrs@, x, y)->0, answers(x, y)) by {
                                                if x == ri && y == rj {
                                                } else {
                                                    assert(ident_answer_fits(item_string(attrs@, x, y)->0, old_answers(x, y)));
                                                }
                                            }
                                            lemma_each_config_frame(attrs@.subrange(0, ri), old_answers, answers);
                                            lemma_nested_fold_frame(*attr, start, items@.subrange(0, rj), old_answers, answers, ri);
                                        }
                                        r
                                    },
                                }
                            };
                            proof {
                                assert(nested_step(*attr, before, *item, answers(i as int, j as int)) == each_answer_view(step));
                                assert(nested_fold(*attr, start, items@.subrange(0, j + 1), answers, i as int) == each_answer_view(step));
                            }
                            match step {
                                Err(r) => {
                                    proof {
                                        lemma_nested_fold_error(*attr, start, items@, answers, i as int, j + 1, r@);
                                        assert(attrs@.subrange(0, i + 1).last() == *attr);
                                        assert(each_config_with(attrs@.subrange(0, i + 1), answers) == Err::<Option<EachNameV>, ErrorV>(r@));
                                        lemma_each_config_error(attrs@, answers, i + 1, r@);
                                        assert(answers_fit(attrs@, answers) && each_config_with(attrs@, answers) == Err::<Option<EachNameV>, ErrorV>(r@));
                                    }
                                    return Err(r);
                                },
                                Ok(e) => {
                                    each = e;
                                },
                            }
                            j += 1;
                        }
                        proof {
                            assert(items@.subrange(0, items@.len() as int) =~= items@);
                            assert(attrs@.subrange(0, i + 1).last() == *attr);
                        }
                        match trailing {
                            Some(t) => {
                                let r = copy_error(t);
                                proof {
                                    assert(each_config_with(attrs@.subrange(0, i + 1), answers) == Err::<Option<EachNameV>, ErrorV>(r@));
                                    lemma_each_config_error(attrs@, answers, i + 1, r@);
                                    assert(answers_fit(attrs@, answers) && each_config_with(attrs@, answers) == Err::<Option<EachNameV>, ErrorV>(r@));
                                }
                                return Err(r);
                            },
                            None => {},
                        }
                    },
                }
            }
            proof {
                assert(attrs@.subrange(0, i + 1).last() == *attr);
                assert(each_config_with(attrs@.subrange(0, i + 1), answers) == Ok::<Option<EachNameV>, ErrorV>(each_view(each)));
            }
            i += 1;
        }
        proof {
            assert(attrs@.subrange(0, attrs@.len() as int) =~= attrs@);
            assert(answers_fit(attrs@, answers) && each_config_with(attrs@, answers) == Ok::<Option<EachNameV>, ErrorV>(each_view(each)));
        }
        Ok(BuilderFieldConfig { each })
    }
}

/// A copy of an error.
pub fn copy_error(e: &MacroError) -> (r: MacroError)
    ensures
        r@ == e@,
{
    MacroError { span: e.span, message: copy_chars(&e.message) }
}

/// A named field of the struct the builder is for.
pub struct BuilderFieldInput {
    pub ident: Vec<char>,
    pub ty: TypeModel,
    pub attrs: Vec<AttrModel>,
}

/// A field as the builder sees it: its name, its type (`T` for a field of
/// type `Option<T>`), whether it is optional, the item type when that type
/// is `Vec<T>`, and its `each` name.
pub struct BuilderField {
    pub ident: Vec<char>,
    pub ty: usize,
    pub vec_item: Option<usize>,
    pub optional: bool,
    pub each: Option<EachName>,
}

/// The type `T` when `ty` is an optional type: `Option<T>`, also written
/// `std::option::Option<T>` or `core::option::Option<T>`.
pub open spec fn optionized_type(ty: TypeModel) -> Option<usize> {
    single_type_argument(ty, "core"@, "option"@, "Option"@)
}

/// The item type `T` when `ty` is a vector: `Vec<T>`, also written
/// `std::vec::Vec<T>` or `alloc::vec::Vec<T>`.
pub open spec fn vec_item_type(ty: TypeModel) -> Option<usize> {
    single_type_argument(ty, "alloc"@, "vec"@, "Vec"@)
}

/// The type inside `Option<T>` of a field, as a node of the field's type.
pub open spec fn option_inner(ty: TypeModel) -> TypeModel {
    ty->Path_segments@.last().args->args@[0]->ty
}

/// What the builder makes of a field, or the error in its attributes.
pub open spec fn builder_field_spec(f: BuilderFieldInput, r: Result<BuilderField, MacroError>) -> bool {
    match r {
        Err(err) => each_config(f.attrs@, Err::<Option<EachNameV>, ErrorV>(err@)),
        Ok(b) => {
            &&& each_config(f.attrs@, Ok::<Option<EachNameV>, ErrorV>(each_view(b.each)))
            &&& b.ident@ == f.ident@
            &&& b.optional == (optionized_type(f.ty) is Some)
            &&& b.ty == if b.optional { optionized_type(f.ty)->0 } else { type_id(f.ty) }
            &&& b.vec_item == if b.optional { vec_item_type(option_inner(f.ty)) } else { vec_item_type(f.ty) }
        },
    }
}

impl BuilderField {
    /// Reads a field: its `each` name, and whether its type is `Option<T>`.
    pub fn try_from(f: &BuilderFieldInput) -> (r: Result<BuilderField, MacroError>)
        ensures
            builder_field_spec(*f, r),
    {
        let config = match BuilderFieldConfig::try_from(&f.attrs) {
            Ok(c) => c,
            Err(e) => {
                return Err(e);
            },
        };
        let optionized = single_type_argument_of(&f.ty, "core", "option", "Option");
        let (ty, vec_item) = match optionized {
            Some(inner_id) => {
                let inner = option_inner_of(&f.ty);
                (inner_id, single_type_argument_of(inner, "alloc", "vec", "Vec"))
            },
            None => (type_id_of(&f.ty), single_type_argument_of(&f.ty, "alloc", "vec", "Vec")),
        };
        Ok(
            BuilderField {
                ident: copy_chars(&f.ident),
                ty,
                vec_item,
                optional: optionized.is_some(),
                each: config.each,
            },
        )
    }
}

/// The type inside `Option<T>`.
fn option_inner_of(ty: &TypeModel) -> (r: &TypeModel)
    requires
        optionized_type(*ty) is Some,
    ensures
        *r == option_inner(*ty),
{
    match ty {
        TypeModel::Path { segments, .. } => match &segments[segments.len() - 1].args {
            crate::syntax::ArgsModel::AngleBracketed { args } => match &args[0] {
                crate::syntax::GenericArgModel::Type { ty } => ty,
                _ => ty,
            },
            _ => ty,
        },
        _ => ty,
    }
}

} // verus!

verus! {

/// How the builder stores a field: as `Option<T>`, or (for an `each` field)
/// as its own type.
pub enum FieldDefinition {
    Optional { ident: Vec<char>, ty: usize },
    Direct { ident: Vec<char>, ty: usize },
}

/// What a new builder holds in a field: `None`, or an empty `Vec`.
pub enum FieldInit {
    Unset { ident: Vec<char> },
    EmptyVec { ident: Vec<char> },
}

/// The builder's methods for a field: a setter taking the field's type; or,
/// for an `each` field, a method named `each` that pushes one item (of the
/// field's item type, when the type is `Vec<T>`), with also a setter for the
/// whole `Vec` when `each` differs from the field's name.
pub enum FieldMethod {
    Setter { ident: Vec<char>, ty: usize },
    Each { ident: Vec<char>, ty: usize, each: EachName, item_type: Option<usize>, whole_setter: bool },
}

/// How `build` fills a field: with the items gathered, with the optional
/// value as it is, or with the value, failing with `message` when unset.
pub enum ConstructField {
    Drain { ident: Vec<char> },
    Optional { ident: Vec<char> },
    Required { ident: Vec<char>, message: Vec<char> },
}

/// The message `build` fails with when field `ident` is unset.
pub open spec fn not_set_message(ident: Seq<char>) -> Seq<char> {
    ident + " is not set"@
}

impl BuilderField {
    /// How the builder stores this field.
    pub fn field_definition(&self) -> (r: FieldDefinition)
        ensures
            match r {
                FieldDefinition::Optional { ident, ty } => self.each is None && ident@ == self.ident@
                    && ty == self.ty,
                FieldDefinition::Direct { ident, ty } => self.each is Some && ident@ == self.ident@
                    && ty == self.ty,
            },
    {
        if self.each.is_none() {
            FieldDefinition::Optional { ident: copy_chars(&self.ident), ty: self.ty }
        } else {
            FieldDefinition::Direct { ident: copy_chars(&self.ident), ty: self.ty }
        }
    }

    /// What a new builder holds in this field.
    pub fn field_init(&self) -> (r: FieldInit)
        ensures
            match r {
                FieldInit::Unset { ident } => self.each is None && ident@ == self.ident@,
                FieldInit::EmptyVec { ident } => self.each is Some && ident@ == self.ident@,
            },
    {
        if self.each.is_none() {
            FieldInit::Unset { ident: copy_chars(&self.ident) }
        } else {
            FieldInit::EmptyVec { ident: copy_chars(&self.ident) }
        }
    }

    /// The builder's methods for this field.
    pub fn field_method(&self) -> (r: FieldMethod)
        ensures
            match r {
                FieldMethod::Setter { ident, ty } => self.each is None && ident@ == self.ident@ && ty
                    == self.ty,
                FieldMethod::Each { ident, ty, each, item_type, whole_setter } => self.each is Some
                    && ident@ == self.ident@ && ty == self.ty && each@ == self.each->0@ && item_type
                    == self.vec_item && whole_setter == (self.each->0.name@ != self.ident@),
            },
    {
        match &self.each {
            Some(each) => {
                let same = chars_eq(&each.name, &self.ident);
                FieldMethod::Each {
                    ident: copy_chars(&self.ident),
                    ty: self.ty,
                    each: EachName { name: copy_chars(&each.name), span: each.span },
                    item_type: self.vec_item,
                    whole_setter: !same,
                }
            },
            None => FieldMethod::Setter { ident: copy_chars(&self.ident), ty: self.ty },
        }
    }

    /// How `build` fills this field.
    pub fn construct_field(&self) -> (r: ConstructField)
        ensures
            match r {
                ConstructField::Drain { ident } => self.each is Some && ident@ == self.ident@,
                ConstructField::Optional { ident } => self.each is None && self.optional && ident@
                    == self.ident@,
                ConstructField::Required { ident, message } => self.each is None && !self.optional
                    && ident@ == self.ident@ && message@ == not_set_message(self.ident@),
            },
    {
        if self.each.is_some() {
            ConstructField::Drain { ident: copy_chars(&self.ident) }
        } else if self.optional {
            ConstructField::Optional { ident: copy_chars(&self.ident) }
        } else {
            let mut message = copy_chars(&self.ident);
            let tail = chars_of(" is not set");
            append_chars(&mut message, &tail);
            ConstructField::Required { ident: copy_chars(&self.ident), message }
        }
    }
}

/// Everything the builder does with one field.
pub struct FieldPlan {
    pub definition: FieldDefinition,
    pub init: FieldInit,
    pub method: FieldMethod,
    pub construct: ConstructField,
}

/// The builder for a struct: its name, and what it does with each field.
pub struct BuilderPlan {
    pub builder_name: Vec<char>,
    pub fields: Vec<FieldPlan>,
}

/// Whether `p` is the plan for the field `f`, read from the input `i`.
pub open spec fn is_field_plan(i: BuilderFieldInput, p: FieldPlan) -> bool {
    exists|b: BuilderField|
        builder_field_spec(i, Ok(b)) && #[trigger] plan_of(b, p)
}

/// Whether `p` holds the builder's pieces for the field `b`.
pub open spec fn plan_of(b: BuilderField, p: FieldPlan) -> bool {
    &&& match p.definition {
        FieldDefinition::Optional { ident, ty } => b.each is None && ident@ == b.ident@ && ty == b.ty,
        FieldDefinition::Direct { ident, ty } => b.each is Some && ident@ == b.ident@ && ty == b.ty,
    }
    &&& match p.init {
        FieldInit::Unset { ident } => b.each is None && ident@ == b.ident@,
        FieldInit::EmptyVec { ident } => b.each is Some && ident@ == b.ident@,
    }
    &&& match p.method {
        FieldMethod::Setter { ident, ty } => b.each is None && ident@ == b.ident@ && ty == b.ty,
        FieldMethod::Each { ident, ty, each, item_type, whole_setter } => b.each is Some && ident@
            == b.ident@ && ty == b.ty && each@ == b.each->0@ && item_type == b.vec_item
            && whole_setter == (b.each->0.name@ != b.ident@),
    }
    &&& match p.construct {
        ConstructField::Drain { ident } => b.each is Some && ident@ == b.ident@,
        ConstructField::Optional { ident } => b.each is None && b.optional && ident@ == b.ident@,
        ConstructField::Required { ident, message } => b.each is None && !b.optional && ident@
            == b.ident@ && message@ == not_set_message(b.ident@),
    }
}

/// Whether the attributes `attrs` can be read without error.
pub open spec fn config_can_succeed(attrs: Seq<AttrModel>) -> bool {
    exists|e: Option<EachNameV>| each_config(attrs, Ok::<Option<EachNameV>, ErrorV>(e))
}

/// Whether field `k` can be the first whose attributes are in error, with
/// the error `e`.
pub open spec fn field_error(fields: Seq<BuilderFieldInput>, k: int, e: ErrorV) -> bool {
    &&& 0 <= k < fields.len()
    &&& each_config(fields[k].attrs@, Err::<Option<EachNameV>, ErrorV>(e))
    &&& forall|j: int| 0 <= j < k ==> config_can_succeed(#[trigger] fields[j].attrs@)
}

/// `#[derive(Builder)]` on the struct `name` with the named fields `fields`:
/// the builder's name (`name` followed by `Builder`) and its plan for each
/// field, or the error of the first field whose attributes are in error.
pub fn derive(name: &Vec<char>, fields: &Vec<BuilderFieldInput>) -> (r: Result<BuilderPlan, MacroError>)
    ensures
        match r {
            Ok(plan) => {
                &&& plan.builder_name@ == unraw(name@) + "Builder"@
                &&& plan.fields@.len() == fields@.len()
                &&& forall|j: int| 0 <= j < fields@.len() ==> is_field_plan(fields@[j], #[trigger] plan.fields@[j])
            },
            Err(e) => exists|k: int| #[trigger] field_error(fields@, k, e@),
        },
{
    let mut plans: Vec<FieldPlan> = Vec::new();
    let mut i: usize = 0;
    while i < fields.len()
        invariant
            i <= fields@.len(),
            plans@.len() == i,
            forall|j: int| 0 <= j < i ==> config_can_succeed(#[trigger] fields@[j].attrs@),
            forall|j: int| 0 <= j < i ==> is_field_plan(fields@[j], #[trigger] plans@[j]),
        decreases fields.len() - i,
    {
        let b = match BuilderField::try_from(&fields[i]) {
            Ok(b) => b,
            Err(e) => {
                proof {
                    assert(field_error(fields@, i as int, e@));
                }
                let r: Result<BuilderPlan, MacroError> = Err(e);
                proof {
                    assert(field_error(fields@, i as int, r->Err_0@));
                }
                return r;
            },
        };
        let plan = FieldPlan {
            definition: b.field_definition(),
            init: b.field_init(),
            method: b.field_method(),
            construct: b.construct_field(),
        };
        proof {
            assert(plan_of(b, plan));
            assert(each_config(fields@[i as int].attrs@, Ok::<Option<EachNameV>, ErrorV>(each_view(b.each))));
            assert(config_can_succeed(fields@[i as int].attrs@));
        }
        plans.push(plan);
        i += 1;
    }
    let mut builder_name = unraw_chars(name);
    let suffix = chars_of("Builder");
    append_chars(&mut builder_name, &suffix);
    Ok(BuilderPlan { builder_name, fields: plans })
}

} // verus!

verus! {

/// A field type written `Name<T>`, a single segment with one type
/// argument, is optional exactly when `Name` is `Option`, and a vector
/// exactly when `Name` is `Vec`; then `T` is the type inside.
pub proof fn law_option_and_vec_by_name(t: TypeModel)
    requires
        t matches TypeModel::Path { qself, segments, .. } && qself is None && segments@.len() == 1,
        t->Path_segments@[0].args matches crate::syntax::ArgsModel::AngleBracketed { args } && args@.len() == 1
            && args@[0] is Type,
    ensures
        ({
            let seg = t->Path_segments@[0];
            let inner = type_id(seg.args->AngleBracketed_args@[0]->Type_ty);
            &&& optionized_type(t) == if seg.ident@ == "Option"@ {
                Some(inner)
            } else {
                None::<usize>
            }
            &&& vec_item_type(t) == if seg.ident@ == "Vec"@ {
                Some(inner)
            } else {
                None::<usize>
            }
        }),
{
}

/// A field type that is not a path (a reference, a tuple, an array...) is
/// neither optional nor a vector.
pub proof fn law_non_path_type_is_plain(t: TypeModel)
    requires
        t is Other,
    ensures
        optionized_type(t) is None,
        vec_item_type(t) is None,
{
}

} // verus!
