//! The calls into `syn` that decide what the Rust grammar accepts: whether a
//! text is an identifier, what an integer literal's value is, whether a text
//! is a `where` predicate. Of each answer only what holds
//! in every process is claimed, and believed.
use vstd::prelude::*;

verus! {

/// Whether `text` is a word `syn` never takes for an identifier: `_` and
/// the keywords.
pub open spec fn is_reserved_word(text: Seq<char>) -> bool {
    ||| text == "_"@
    ||| text == "abstract"@
    ||| text == "as"@
    ||| text == "async"@
    ||| text == "await"@
    ||| text == "become"@
    ||| text == "box"@
    ||| text == "break"@
    ||| text == "const"@
    ||| text == "continue"@
    ||| text == "crate"@
    ||| text == "do"@
    ||| text == "dyn"@
    ||| text == "else"@
    ||| text == "enum"@
    ||| text == "extern"@
    ||| text == "false"@
    ||| text == "final"@
    ||| text == "fn"@
    ||| text == "for"@
    ||| text == "if"@
    ||| text == "impl"@
    ||| text == "in"@
    ||| text == "let"@
    ||| text == "loop"@
    ||| text == "macro"@
    ||| text == "match"@
    ||| text == "mod"@
    ||| text == "move"@
    ||| text == "mut"@
    ||| text == "override"@
    ||| text == "priv"@
    ||| text == "pub"@
    ||| text == "ref"@
    ||| text == "return"@
    ||| text == "Self"@
    ||| text == "self"@
    ||| text == "static"@
    ||| text == "struct"@
    ||| text == "super"@
    ||| text == "trait"@
    ||| text == "true"@
    ||| text == "try"@
    ||| text == "type"@
    ||| text == "typeof"@
    ||| text == "unsafe"@
    ||| text == "unsized"@
    ||| text == "use"@
    ||| text == "virtual"@
    ||| text == "where"@
    ||| text == "while"@
    ||| text == "yield"@
}

/// Whether `text` is a plain ASCII identifier: an ASCII letter or `_`,
/// followed by ASCII letters, digits and `_`.
pub open spec fn is_plain_ascii_ident(text: Seq<char>) -> bool {
    &&& text.len() > 0
    &&& !('0' <= text[0] <= '9')
    &&& forall|i: int|
        0 <= i < text.len() ==> ('a' <= #[trigger] text[i] <= 'z' || 'A' <= text[i] <= 'Z' || '0'
            <= text[i] <= '9' || text[i] == '_')
}

/// What `syn`'s answer to `text` as an identifier is in every process: a
/// refusal for a reserved word, and the identifier itself for any other
/// plain ASCII identifier. Other texts (non-ASCII ones among them) may be
/// read differently by the compiler's lexer and by the fallback one.
pub open spec fn ident_answer_fits(text: Seq<char>, r: Result<Seq<char>, Seq<char>>) -> bool {
    &&& is_reserved_word(text) ==> r is Err
    &&& is_plain_ascii_ident(text) && !is_reserved_word(text) ==> r == Ok::<Seq<char>, Seq<char>>(text)
}

/// The value of an answer of `parse_ident`.
pub open spec fn ident_answer_view(r: Result<Vec<char>, Vec<char>>) -> Result<Seq<char>, Seq<char>> {
    match r {
        Ok(n) => Ok(n@),
        Err(m) => Err(m@),
    }
}

/// Whether `text` is a plain decimal literal: an ASCII digit, then ASCII
/// digits and `_`, with no suffix.
pub open spec fn is_plain_decimal(text: Seq<char>) -> bool {
    &&& text.len() > 0
    &&& '0' <= text[0] <= '9'
    &&& forall|i: int| 0 <= i < text.len() ==> ('0' <= #[trigger] text[i] <= '9' || text[i] == '_')
}

/// The number the digits of `text` write in base 10, `_` being skipped.
pub open spec fn decimal_value(text: Seq<char>) -> nat
    decreases text.len(),
{
    if text.len() == 0 {
        0
    } else if text.last() == '_' {
        decimal_value(text.drop_last())
    } else {
        decimal_value(text.drop_last()) * 10 + (text.last() as nat - '0' as nat) as nat
    }
}

/// What `syn`'s answer to `text` as an integer literal for a `usize` is in
/// every process: for a plain decimal literal, its value when it fits a
/// `usize`, else an error. Other texts may be lexed differently by the
/// compiler's lexer and by the fallback one.
pub open spec fn lit_answer_fits(text: Seq<char>, a: Option<Result<usize, Seq<char>>>) -> bool {
    is_plain_decimal(text) ==> if decimal_value(text) <= usize::MAX {
        a == Some(Ok::<usize, Seq<char>>(decimal_value(text) as usize))
    } else {
        a matches Some(Err(_))
    }
}

/// Whether the names `segs` are plain ASCII identifiers, none a reserved word.
pub open spec fn plain_names(segs: Seq<Seq<char>>) -> bool {
    &&& segs.len() > 0
    &&& forall|i: int|
        0 <= i < segs.len() ==> is_plain_ascii_ident(#[trigger] segs[i]) && !is_reserved_word(segs[i])
}

/// The path the names `segs` make, joined by `::`.
pub open spec fn join_path(segs: Seq<Seq<char>>) -> Seq<char>
    decreases segs.len(),
{
    if segs.len() <= 1 {
        if segs.len() == 1 {
            segs[0]
        } else {
            Seq::empty()
        }
    } else {
        join_path(segs.drop_last()) + "::"@ + segs.last()
    }
}

/// Whether `text` is a plain bound `Type: Trait`: two paths of plain ASCII
/// identifiers, none a reserved word, joined by `: `.
pub open spec fn is_plain_bound(text: Seq<char>) -> bool {
    exists|ty: Seq<Seq<char>>, tr: Seq<Seq<char>>|
        plain_names(ty) && plain_names(tr) && text == #[trigger] join_path(ty) + ": "@ + #[trigger] join_path(tr)
}

/// What `syn`'s answer to `text` as a `where` predicate is in every
/// process: an empty text is refused, a plain bound `Type: Trait` accepted.
pub open spec fn where_answer_fits(text: Seq<char>, a: Result<(), Seq<char>>) -> bool {
    &&& text.len() == 0 ==> a is Err
    &&& is_plain_bound(text) ==> a is Ok
}

/// The value of an answer of `check_where_predicate`.
pub open spec fn where_answer_view(r: Result<(), Vec<char>>) -> Result<(), Seq<char>> {
    match r {
        Ok(()) => Ok(()),
        Err(m) => Err(m@),
    }
}

/// The value of an answer of `parse_lit_usize`.
pub open spec fn lit_answer_view(r: Option<Result<usize, Vec<char>>>) -> Option<
    Result<usize, Seq<char>>,
> {
    match r {
        None => None,
        Some(Ok(v)) => Some(Ok(v)),
        Some(Err(m)) => Some(Err(m@)),
    }
}

/// `syn::parse_str::<syn::Ident>`: the identifier `text` holds, printed
/// back, or the message of the error when `syn` refuses `text` as an
/// identifier. Only what holds in every process is claimed: a reserved word
/// is refused, and another plain ASCII identifier comes back as it is; what
/// comes back for other texts, and the messages, are left unsaid.
#[verifier::external_body]
pub(crate) fn parse_ident(text: &Vec<char>) -> (r: Result<Vec<char>, Vec<char>>)
    ensures
        ident_answer_fits(text@, ident_answer_view(r)),
{
    let s: String = text.iter().collect();
    match syn::parse_str::<syn::Ident>(&s) {
        Ok(ident) => Ok(ident.to_string().chars().collect()),
        Err(e) => Err(e.to_string().chars().collect()),
    }
}

/// `syn::parse_str::<syn::LitInt>` then `LitInt::base10_parse::<usize>`:
/// nothing when `text` is not an integer literal, else the value or the
/// message of the parse error. Only what holds in every process is claimed:
/// a plain decimal literal gives its value when it fits a `usize`, and an
/// error otherwise; the answer for other texts, and the messages, are left
/// unsaid.
#[verifier::external_body]
pub(crate) fn parse_lit_usize(text: &Vec<char>) -> (r: Option<Result<usize, Vec<char>>>)
    ensures
        lit_answer_fits(text@, lit_answer_view(r)),
{
    let s: String = text.iter().collect();
    match syn::parse_str::<syn::LitInt>(&s) {
        Ok(lit) => match lit.base10_parse::<usize>() {
            Ok(v) => Some(Ok(v)),
            Err(e) => Some(Err(e.to_string().chars().collect())),
        },
        Err(_) => None,
    }
}

/// `syn::parse_str::<syn::WherePredicate>`: success when `text` is one
/// `where` predicate, else the message of the parse error. Only what holds
/// in every process is claimed: an empty text is refused, and a plain bound
/// `Type: Trait` of ASCII identifiers accepted; other texts, and the
/// messages, can differ between the compiler's lexer and the fallback one.
#[verifier::external_body]
pub(crate) fn check_where_predicate(text: &Vec<char>) -> (r: Result<(), Vec<char>>)
    ensures
        where_answer_fits(text@, where_answer_view(r)),
{
    let s: String = text.iter().collect();
    match syn::parse_str::<syn::WherePredicate>(&s) {
        Ok(_) => Ok(()),
        Err(e) => Err(e.to_string().chars().collect()),
    }
}

} // verus!
