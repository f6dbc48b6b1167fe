//! `#[sorted]` on an enum, and `#[sorted]` on a `match` inside a function
//! marked `#[sorted::check]`: the variants, or the arms' patterns, must come
//! in sorted order.
//!
//! Names are compared as `proc_macro2::Ident` compares them, by their text;
//! comparing texts char by char orders them as comparing their UTF-8 bytes
//! does. A path compares segment by segment.
use crate::syntax::{path_is_ident, PathModel};
use crate::tokens::{append_chars, chars_eq, chars_of, copy_chars, copy_names, names_view};
use vstd::prelude::*;

verus! {

/// Lexicographic order of sequences, for an order `lt` of their items.
pub open spec fn lex_lt<T>(a: Seq<T>, b: Seq<T>, lt: spec_fn(T, T) -> bool) -> bool
    decreases a.len(),
{
    if a.len() == 0 {
        b.len() > 0
    } else if b.len() == 0 {
        false
    } else if lt(a[0], b[0]) {
        true
    } else if a[0] == b[0] {
        lex_lt(a.drop_first(), b.drop_first(), lt)
    } else {
        false
    }
}

/// The order of characters: by code point.
pub open spec fn char_lt(a: char, b: char) -> bool {
    (a as int) < (b as int)
}

/// The order of characters, as a function.
pub open spec fn char_order() -> spec_fn(char, char) -> bool {
    |x: char, y: char| char_lt(x, y)
}

/// The order of identifiers' texts.
pub open spec fn name_lt(a: Seq<char>, b: Seq<char>) -> bool {
    lex_lt(a, b, char_order())
}

/// The order of identifiers' texts, as a function.
pub open spec fn name_order() -> spec_fn(Seq<char>, Seq<char>) -> bool {
    |x: Seq<char>, y: Seq<char>| name_lt(x, y)
}

/// The order of paths.
pub open spec fn path_lt(a: Seq<Seq<char>>, b: Seq<Seq<char>>) -> bool {
    lex_lt(a, b, name_order())
}

/// The order of paths, as a function.
pub open spec fn path_order() -> spec_fn(Seq<Seq<char>>, Seq<Seq<char>>) -> bool {
    |x: Seq<Seq<char>>, y: Seq<Seq<char>>| path_lt(x, y)
}

/// Whether `lt` is a strict total order.
pub open spec fn is_strict_total<T>(lt: spec_fn(T, T) -> bool) -> bool {
    &&& forall|x: T| !#[trigger] lt(x, x)
    &&& forall|x: T, y: T, z: T| #[trigger] lt(x, y) && #[trigger] lt(y, z) ==> lt(x, z)
    &&& forall|x: T, y: T| #[trigger] lt(x, y) || x == y || #[trigger] lt(y, x)
}

proof fn lemma_lex_irreflexive<T>(a: Seq<T>, lt: spec_fn(T, T) -> bool)
    requires
        is_strict_total(lt),
    ensures
        !lex_lt(a, a, lt),
    decreases a.len(),
{
    if a.len() > 0 {
        assert(!lt(a[0], a[0]));
        lemma_lex_irreflexive(a.drop_first(), lt);
    }
}

proof fn lemma_lex_transitive<T>(a: Seq<T>, b: Seq<T>, c: Seq<T>, lt: spec_fn(T, T) -> bool)
    requires
        is_strict_total(lt),
        lex_lt(a, b, lt),
        lex_lt(b, c, lt),
    ensures
        lex_lt(a, c, lt),
    decreases a.len(),
{
    if a.len() > 0 {
        assert(b.len() > 0 && c.len() > 0);
        if lt(a[0], b[0]) {
            if lt(b[0], c[0]) {
                assert(lt(a[0], c[0]));
            }
        } else if lt(b[0], c[0]) {
        } else {
            lemma_lex_transitive(a.drop_first(), b.drop_first(), c.drop_first(), lt);
        }
    }
}

proof fn lemma_lex_total<T>(a: Seq<T>, b: Seq<T>, lt: spec_fn(T, T) -> bool)
    requires
        is_strict_total(lt),
    ensures
        lex_lt(a, b, lt) || a == b || lex_lt(b, a, lt),
    decreases a.len(),
{
    if a.len() > 0 && b.len() > 0 {
        assert(lt(a[0], b[0]) || a[0] == b[0] || lt(b[0], a[0]));
        if a[0] == b[0] {
            lemma_lex_total(a.drop_first(), b.drop_first(), lt);
            if a.drop_first() == b.drop_first() {
                assert(a.drop_first().len() == b.drop_first().len());
                assert(a.len() == b.len());
                assert forall|i: int| 0 <= i < a.len() implies a[i] == b[i] by {
                    if i > 0 {
                        assert(a[i] == a.drop_first()[i - 1]);
                        assert(b[i] == b.drop_first()[i - 1]);
                    }
                }
                assert(a =~= b);
            }
        }
    } else if a.len() == 0 && b.len() == 0 {
        assert(a =~= b);
    }
}

proof fn lemma_lex_strict_total<T>(lt: spec_fn(T, T) -> bool)
    requires
        is_strict_total(lt),
    ensures
        is_strict_total(|x: Seq<T>, y: Seq<T>| lex_lt(x, y, lt)),
{
    let l = |x: Seq<T>, y: Seq<T>| lex_lt(x, y, lt);
    assert forall|x: Seq<T>| !#[trigger] l(x, x) by {
        lemma_lex_irreflexive(x, lt);
    }
    assert forall|x: Seq<T>, y: Seq<T>, z: Seq<T>| #[trigger] l(x, y) && #[trigger] l(y, z) implies l(
        x,
        z,
    ) by {
        lemma_lex_transitive(x, y, z, lt);
    }
    assert forall|x: Seq<T>, y: Seq<T>| #[trigger] l(x, y) || x == y || #[trigger] l(y, x) by {
        lemma_lex_total(x, y, lt);
    }
}

/// The order of paths is a strict total order.
proof fn lemma_path_order()
    ensures
        is_strict_total(path_order()),
{
    let c = char_order();
    assert(is_strict_total(c)) by {
        assert forall|x: char, y: char| #[trigger] c(x, y) || x == y || #[trigger] c(y, x) by {
            if (x as int) == (y as int) {
                assert(x == y);
            }
        }
    }
    lemma_lex_strict_total(c);
    let n = name_order();
    assert(n =~= |x: Seq<char>, y: Seq<char>| lex_lt(x, y, c));
    lemma_lex_strict_total(n);
    assert(path_order() =~= |x: Seq<Seq<char>>, y: Seq<Seq<char>>| lex_lt(x, y, n));
}

} // verus!

verus! {

proof fn lemma_lex_suffix<T>(a: Seq<T>, b: Seq<T>, i: int, lt: spec_fn(T, T) -> bool)
    requires
        0 <= i < a.len(),
        i < b.len(),
    ensures
        lex_lt(a.subrange(i, a.len() as int), b.subrange(i, b.len() as int), lt) == if lt(a[i], b[i]) {
            true
        } else if a[i] == b[i] {
            lex_lt(a.subrange(i + 1, a.len() as int), b.subrange(i + 1, b.len() as int), lt)
        } else {
            false
        },
{
    let sa = a.subrange(i, a.len() as int);
    let sb = b.subrange(i, b.len() as int);
    assert(sa[0] == a[i] && sb[0] == b[i]);
    assert(sa.drop_first() =~= a.subrange(i + 1, a.len() as int));
    assert(sb.drop_first() =~= b.subrange(i + 1, b.len() as int));
}

proof fn lemma_lex_ends<T>(a: Seq<T>, b: Seq<T>, i: int, lt: spec_fn(T, T) -> bool)
    requires
        0 <= i <= a.len(),
        i <= b.len(),
        i == a.len() || i == b.len(),
    ensures
        lex_lt(a.subrange(i, a.len() as int), b.subrange(i, b.len() as int), lt) == (a.len() < b.len()),
{
}

/// Whether the text `a` sorts before the text `b`.
pub fn name_less(a: &Vec<char>, b: &Vec<char>) -> (r: bool)
    ensures
        r == name_lt(a@, b@),
{
    let mut i: usize = 0;
    proof {
        assert(a@.subrange(0, a@.len() as int) =~= a@);
        assert(b@.subrange(0, b@.len() as int) =~= b@);
    }
    while i < a.len() && i < b.len()
        invariant
            i <= a@.len(),
            i <= b@.len(),
            name_lt(a@, b@) == lex_lt(
                a@.subrange(i as int, a@.len() as int),
                b@.subrange(i as int, b@.len() as int),
                char_order(),
            ),
        decreases a.len() - i,
    {
        proof {
            lemma_lex_suffix(a@, b@, i as int, char_order());
        }
        if a[i] < b[i] {
            assert(char_lt(a@[i as int], b@[i as int]));
            assert(char_order()(a@[i as int], b@[i as int]));
            return true;
        }
        if a[i] != b[i] {
            return false;
        }
        i += 1;
    }
    proof {
        lemma_lex_ends(a@, b@, i as int, char_order());
    }
    a.len() < b.len()
}

/// A name to sort by: the identifiers of a path, or a single identifier.
pub struct Sortable {
    pub names: Vec<Vec<char>>,
}

impl View for Sortable {
    type V = Seq<Seq<char>>;

    open spec fn view(&self) -> Seq<Seq<char>> {
        names_view(self.names@)
    }
}

/// The values of a sequence of names to sort by.
pub open spec fn sortables_view(s: Seq<Sortable>) -> Seq<Seq<Seq<char>>> {
    Seq::new(s.len(), |i: int| s[i]@)
}

/// Whether the name `a` sorts before the name `b`.
pub fn path_less(a: &Sortable, b: &Sortable) -> (r: bool)
    ensures
        r == path_lt(a@, b@),
{
    let ghost av = a@;
    let ghost bv = b@;
    let mut i: usize = 0;
    proof {
        assert(av.subrange(0, av.len() as int) =~= av);
        assert(bv.subrange(0, bv.len() as int) =~= bv);
    }
    while i < a.names.len() && i < b.names.len()
        invariant
            av == a@,
            bv == b@,
            i <= av.len(),
            i <= bv.len(),
            path_lt(av, bv) == lex_lt(
                av.subrange(i as int, av.len() as int),
                bv.subrange(i as int, bv.len() as int),
                name_order(),
            ),
        decreases a.names.len() - i,
    {
        proof {
            lemma_lex_suffix(av, bv, i as int, name_order());
        }
        if name_less(&a.names[i], &b.names[i]) {
            return true;
        }
        if !chars_eq(&a.names[i], &b.names[i]) {
            return false;
        }
        i += 1;
    }
    proof {
        lemma_lex_ends(av, bv, i as int, name_order());
    }
    a.names.len() < b.names.len()
}

/// How a name shows in messages: its identifiers joined by `::`.
pub open spec fn display_path(p: Seq<Seq<char>>) -> Seq<char>
    decreases p.len(),
{
    if p.len() == 0 {
        Seq::empty()
    } else if p.len() == 1 {
        p[0]
    } else {
        display_path(p.drop_last()) + "::"@ + p.last()
    }
}

/// How a name shows in messages.
pub fn display(s: &Sortable) -> (r: Vec<char>)
    ensures
        r@ == display_path(s@),
{
    let mut r: Vec<char> = Vec::new();
    let mut i: usize = 0;
    proof {
        assert(s@.subrange(0, 0) =~= Seq::<Seq<char>>::empty());
    }
    while i < s.names.len()
        invariant
            i <= s@.len(),
            r@ == display_path(s@.subrange(0, i as int)),
        decreases s.names.len() - i,
    {
        proof {
            assert(s@.subrange(0, i + 1).drop_last() =~= s@.subrange(0, i as int));
        }
        if i > 0 {
            let sep = chars_of("::");
            append_chars(&mut r, &sep);
        }
        append_chars(&mut r, &s.names[i]);
        proof {
            if i == 0 {
                assert(r@ =~= s@.subrange(0, 1)[0]);
            }
        }
        i += 1;
    }
    proof {
        assert(s@.subrange(0, s@.len() as int) =~= s@);
    }
    r
}

/// Why `#[sorted]` refuses an item.
pub enum SortError {
    /// The item at `index` sorts before the one just above it; `before` is
    /// the first item it should come before.
    Unsorted { index: usize, before: usize, message: Vec<char> },
    /// The pattern of arm `index` is not one that can be sorted.
    Unsupported { index: usize, message: Vec<char> },
    /// The attribute stands on something other than an enum.
    NotAnEnum { message: Vec<char> },
}

/// Whether no item sorts before the one above it, up to item `i`.
pub open spec fn sorted_up_to(items: Seq<Seq<Seq<char>>>, i: int) -> bool {
    forall|k: int| 1 <= k < i ==> !#[trigger] path_lt(items[k], items[k - 1])
}

/// The message for an item that should come before an earlier one.
pub open spec fn unsorted_message(curr: Seq<Seq<char>>, before: Seq<Seq<char>>) -> Seq<char> {
    display_path(curr) + " should sort before "@ + display_path(before)
}

/// Whether `r` is what the check of the order of `items` answers: success
/// when every item sorts at or after the one above it; else the first item
/// that sorts before the one above it, with the first item above it that it
/// sorts before.
pub open spec fn is_sorted_answer(items: Seq<Seq<Seq<char>>>, r: Result<(), SortError>) -> bool {
    match r {
        Ok(()) => sorted_up_to(items, items.len() as int),
        Err(SortError::Unsorted { index, before, message }) => {
            &&& 1 <= index < items.len()
            &&& sorted_up_to(items, index as int)
            &&& path_lt(items[index as int], items[index - 1])
            &&& before < index
            &&& path_lt(items[index as int], items[before as int])
            &&& forall|j: int| 0 <= j < before ==> !#[trigger] path_lt(items[index as int], items[j])
            &&& message@ == unsorted_message(items[index as int], items[before as int])
        },
        Err(_) => false,
    }
}

/// Checks that the names come in sorted order.
pub fn is_sorted(items: &Vec<Sortable>) -> (r: Result<(), SortError>)
    ensures
        is_sorted_answer(sortables_view(items@), r),
{
    let ghost iv = sortables_view(items@);
    let mut i: usize = 1;
    while i < items.len()
        invariant
            iv == sortables_view(items@),
            1 <= i,
            items@.len() == 0 || i <= items@.len(),
            sorted_up_to(iv, i as int),
        decreases items.len() - i,
    {
        if path_less(&items[i], &items[i - 1]) {
            let mut j: usize = 0;
            while !path_less(&items[i], &items[j])
                invariant
                    iv == sortables_view(items@),
                    i < items@.len(),
                    j < i,
                    path_lt(iv[i as int], iv[i - 1]),
                    forall|k: int| 0 <= k < j ==> !#[trigger] path_lt(iv[i as int], iv[k]),
                decreases i - j,
            {
                j += 1;
            }
            let mut message = display(&items[i]);
            let middle = chars_of(" should sort before ");
            append_chars(&mut message, &middle);
            let tail = display(&items[j]);
            append_chars(&mut message, &tail);
            return Err(SortError::Unsorted { index: i, before: j, message });
        }
        i += 1;
    }
    Ok(())
}

} // verus!

verus! {

/// The pattern of a `match` arm, as far as sorting reads it.
pub enum PatModel {
    /// A binding `name`.
    Ident { name: Vec<char> },
    /// A path `a::b`, alone, with fields `a::b { .. }`, or with a tuple `a::b(..)`.
    Path { segments: Vec<Vec<char>> },
    Struct { segments: Vec<Vec<char>> },
    TupleStruct { segments: Vec<Vec<char>> },
    /// The wildcard `_`.
    Wild,
    /// Any other pattern.
    Other,
}

/// The name a pattern sorts by, or nothing when it cannot be sorted.
pub open spec fn pat_name(p: PatModel) -> Option<Seq<Seq<char>>> {
    match p {
        PatModel::Ident { name } => Some(seq![name@]),
        PatModel::Path { segments } => Some(names_view(segments@)),
        PatModel::Struct { segments } => Some(names_view(segments@)),
        PatModel::TupleStruct { segments } => Some(names_view(segments@)),
        PatModel::Wild => Some(seq!["_"@]),
        PatModel::Other => None,
    }
}

impl Sortable {
    /// The name a pattern sorts by: its path, its binding, or `_`.
    pub fn try_from_pat(p: &PatModel) -> (r: Option<Sortable>)
        ensures
            match r {
                Some(s) => pat_name(*p) == Some(s@),
                None => pat_name(*p) is None,
            },
    {
        match p {
            PatModel::Ident { name } => {
                let mut names: Vec<Vec<char>> = Vec::new();
                names.push(copy_chars(name));
                proof {
                    assert(names_view(names@) =~= seq![name@]);
                }
                Some(Sortable { names })
            },
            PatModel::Path { segments } => Some(Sortable { names: copy_names(segments) }),
            PatModel::Struct { segments } => Some(Sortable { names: copy_names(segments) }),
            PatModel::TupleStruct { segments } => Some(Sortable { names: copy_names(segments) }),
            PatModel::Wild => {
                let mut names: Vec<Vec<char>> = Vec::new();
                names.push(chars_of("_"));
                proof {
                    assert(names_view(names@) =~= seq!["_"@]);
                }
                Some(Sortable { names })
            },
            PatModel::Other => None,
        }
    }

    /// The name of an enum variant.
    pub fn from_variant(name: &Vec<char>) -> (r: Sortable)
        ensures
            r@ == seq![name@],
    {
        let mut names: Vec<Vec<char>> = Vec::new();
        names.push(copy_chars(name));
        proof {
            assert(names_view(names@) =~= seq![name@]);
        }
        Sortable { names }
    }
}

/// The message for a pattern that cannot be sorted.
pub open spec fn unsupported_message() -> Seq<char> {
    "unsupported by #[sorted]"@
}

/// Whether `r` is what the check of the arms with patterns `pats` answers:
/// the first arm whose pattern cannot be sorted, or else the check of the
/// order of the patterns' names.
pub open spec fn match_answer(pats: Seq<PatModel>, r: Result<(), SortError>) -> bool {
    if exists|i: int| 0 <= i < pats.len() && pat_name(#[trigger] pats[i]) is None {
        r matches Err(SortError::Unsupported { index, message }) && index < pats.len() && pat_name(
            pats[index as int],
        ) is None && (forall|j: int| 0 <= j < index ==> pat_name(#[trigger] pats[j]) is Some)
            && message@ == unsupported_message()
    } else {
        is_sorted_answer(Seq::new(pats.len(), |i: int| pat_name(pats[i])->0), r)
    }
}

/// Checks the arms of a `match` marked `#[sorted]`, given their patterns.
pub fn check_match(pats: &Vec<PatModel>) -> (r: Result<(), SortError>)
    ensures
        match_answer(pats@, r),
{
    let mut items: Vec<Sortable> = Vec::new();
    let mut i: usize = 0;
    while i < pats.len()
        invariant
            i <= pats@.len(),
            items@.len() == i,
            forall|j: int| 0 <= j < i ==> pat_name(#[trigger] pats@[j]) == Some(items@[j]@),
        decreases pats.len() - i,
    {
        match Sortable::try_from_pat(&pats[i]) {
            Some(s) => items.push(s),
            None => {
                return Err(SortError::Unsupported { index: i, message: chars_of("unsupported by #[sorted]") });
            },
        }
        i += 1;
    }
    let r = is_sorted(&items);
    proof {
        assert(sortables_view(items@) =~= Seq::new(pats@.len(), |i: int| pat_name(pats@[i])->0));
    }
    r
}

/// What `#[sorted]` stands on: an enum, with the names of its variants, or
/// anything else.
pub enum SortTarget {
    Enum { variants: Vec<Vec<char>> },
    Other,
}

/// The message for `#[sorted]` on something other than an enum.
pub open spec fn not_enum_message() -> Seq<char> {
    "expected enum or match expression"@
}

/// `#[sorted]` on an item: checks that an enum's variants are sorted.
pub fn sorted(item: &SortTarget) -> (r: Result<(), SortError>)
    ensures
        match item {
            SortTarget::Enum { variants } => is_sorted_answer(
                Seq::new(variants@.len(), |i: int| seq![variants@[i]@]),
                r,
            ),
            SortTarget::Other => r matches Err(SortError::NotAnEnum { message }) && message@
                == not_enum_message(),
        },
{
    match item {
        SortTarget::Enum { variants } => {
            let mut items: Vec<Sortable> = Vec::new();
            let mut i: usize = 0;
            while i < variants.len()
                invariant
                    i <= variants@.len(),
                    items@.len() == i,
                    forall|j: int| 0 <= j < i ==> #[trigger] items@[j]@ == seq![variants@[j]@],
                decreases variants.len() - i,
            {
                items.push(Sortable::from_variant(&variants[i]));
                i += 1;
            }
            let r = is_sorted(&items);
            proof {
                assert(sortables_view(items@) =~= Seq::new(
                    variants@.len(),
                    |i: int| seq![variants@[i]@],
                ));
            }
            r
        },
        SortTarget::Other => Err(
            SortError::NotAnEnum { message: chars_of("expected enum or match expression") },
        ),
    }
}

/// Whether attribute `i` is the first `#[sorted]` among `attrs`.
pub open spec fn is_first_sorted_marker(attrs: Seq<PathModel>, i: int) -> bool {
    &&& 0 <= i < attrs.len()
    &&& path_is_ident(attrs[i], "sorted"@)
    &&& forall|j: int| 0 <= j < i ==> !path_is_ident(#[trigger] attrs[j], "sorted"@)
}

/// Removes the first `#[sorted]` among the attributes of a `match`, and
/// tells where it stood; nothing is removed when the `match` is not marked.
pub fn marked_as_sorted(attrs: &mut Vec<PathModel>) -> (r: Option<usize>)
    ensures
        match r {
            Some(i) => is_first_sorted_marker(old(attrs)@, i as int) && final(attrs)@ == old(attrs)@.remove(
                i as int,
            ),
            None => final(attrs)@ == old(attrs)@ && forall|j: int|
                0 <= j < old(attrs)@.len() ==> !path_is_ident(#[trigger] old(attrs)@[j], "sorted"@),
        },
{
    let mut i: usize = 0;
    while i < attrs.len()
        invariant
            i <= attrs@.len(),
            attrs@ == old(attrs)@,
            forall|j: int| 0 <= j < i ==> !path_is_ident(#[trigger] attrs@[j], "sorted"@),
        decreases attrs.len() - i,
    {
        if crate::syntax::is_ident(&attrs[i], "sorted") {
            attrs.remove(i);
            return Some(i);
        }
        i += 1;
    }
    None
}

/// An expression the `#[check]` attribute looks at: a `match`, with the
/// paths of its attributes and the patterns of its arms, or any other
/// expression.
pub enum CheckedExpr {
    Match { attrs: Vec<PathModel>, pats: Vec<PatModel> },
    Other,
}

/// What `#[check]` does with an expression: leaves it alone, or has
/// removed its attribute `marker` (the first `#[sorted]`) and reports
/// `result`, the check of its arms.
pub enum CheckOutcome {
    Untouched,
    Checked { marker: usize, result: Result<(), SortError> },
}

/// Whether `o` is what `#[check]` does with the expression `e`, which it
/// leaves as `after`.
pub open spec fn check_spec(e: CheckedExpr, o: CheckOutcome, after: CheckedExpr) -> bool {
    match e {
        CheckedExpr::Other => o is Untouched && after is Other,
        CheckedExpr::Match { attrs, pats } => after matches CheckedExpr::Match { attrs: a2, pats: p2 }
            && p2@ == pats@ && match o {
            CheckOutcome::Untouched => a2@ == attrs@ && forall|j: int|
                0 <= j < attrs@.len() ==> !path_is_ident(#[trigger] attrs@[j], "sorted"@),
            CheckOutcome::Checked { marker, result } => is_first_sorted_marker(attrs@, marker as int)
                && a2@ == attrs@.remove(marker as int) && match_answer(pats@, result),
        },
    }
}

/// `#[check]` on one expression of a function: a `match` marked
/// `#[sorted]` loses the marker and has its arms checked; anything else is
/// left alone.
pub fn check(e: &mut CheckedExpr) -> (r: CheckOutcome)
    ensures
        check_spec(*old(e), r, *final(e)),
{
    match e {
        CheckedExpr::Other => CheckOutcome::Untouched,
        CheckedExpr::Match { attrs, pats } => match marked_as_sorted(attrs) {
            None => CheckOutcome::Untouched,
            Some(marker) => CheckOutcome::Checked { marker, result: check_match(pats) },
        },
    }
}

/// `#[sorted]` accepts exactly the sequences in sorted order: the check
/// succeeds if and only if no name sorts before any name above it.
pub proof fn law_sorted_iff_in_order(items: Seq<Seq<Seq<char>>>, r: Result<(), SortError>)
    requires
        is_sorted_answer(items, r),
    ensures
        r is Ok <==> forall|i: int, j: int| 0 <= i < j < items.len() ==> !#[trigger] path_lt(
            items[j],
            items[i],
        ),
{
    lemma_path_order();
    if r is Ok {
        assert forall|i: int, j: int| 0 <= i < j < items.len() implies !#[trigger] path_lt(
            items[j],
            items[i],
        ) by {
            lemma_sorted_prefix(items, i, j);
        }
    } else {
        let k = r->Err_0->Unsorted_index as int;
        assert(path_lt(items[k], items[k - 1]));
    }
}

/// Names and paths sort in dictionary order: `a` sorts before `b` exactly
/// when `a` is a proper prefix of `b`, or, after a common prefix, the next
/// item of `a` sorts before that of `b`.
pub proof fn law_dictionary_order<T>(a: Seq<T>, b: Seq<T>, lt: spec_fn(T, T) -> bool)
    ensures
        lex_lt(a, b, lt) <==> ((a.len() < b.len() && a =~= b.subrange(0, a.len() as int)) || exists|i: int|
            0 <= i < a.len() && i < b.len() && a.subrange(0, i) =~= b.subrange(0, i) && #[trigger] lt(
                a[i],
                b[i],
            )),
    decreases a.len(),
{
    if a.len() == 0 {
    } else if b.len() == 0 {
    } else {
        let a1 = a.drop_first();
        let b1 = b.drop_first();
        law_dictionary_order(a1, b1, lt);
        if lex_lt(a, b, lt) {
            if !lt(a[0], b[0]) {
                assert(a[0] == b[0]);
                if a1.len() < b1.len() && a1 =~= b1.subrange(0, a1.len() as int) {
                    assert forall|j: int| 0 <= j < a.len() implies a[j] == b[j] by {
                        if j > 0 {
                            assert(a[j] == a1[j - 1]);
                            assert(a1[j - 1] == b1.subrange(0, a1.len() as int)[j - 1]);
                            assert(b[j] == b1[j - 1]);
                        }
                    }
                    assert(a =~= b.subrange(0, a.len() as int));
                } else {
                    let i = choose|i: int|
                        0 <= i < a1.len() && i < b1.len() && a1.subrange(0, i) =~= b1.subrange(0, i) && #[trigger] lt(
                            a1[i],
                            b1[i],
                        );
                    assert forall|j: int| 0 <= j < i + 1 implies a[j] == b[j] by {
                        if j > 0 {
                            assert(a[j] == a1[j - 1]);
                            assert(a1[j - 1] == a1.subrange(0, i)[j - 1]);
                            assert(b[j] == b1[j - 1]);
                            assert(b1[j - 1] == b1.subrange(0, i)[j - 1]);
                        }
                    }
                    assert(a.subrange(0, i + 1) =~= b.subrange(0, i + 1));
                    assert(lt(a[i + 1], b[i + 1]));
                }
            } else {
                assert(a.subrange(0, 0) =~= b.subrange(0, 0));
                assert(lt(a[0], b[0]));
            }
        } else {
            if a.len() < b.len() && a =~= b.subrange(0, a.len() as int) {
                assert(a[0] == b[0]);
                assert(a1 =~= b1.subrange(0, a1.len() as int));
            }
            if exists|i: int|
                0 <= i < a.len() && i < b.len() && a.subrange(0, i) =~= b.subrange(0, i) && #[trigger] lt(
                    a[i],
                    b[i],
                ) {
                let i = choose|i: int|
                    0 <= i < a.len() && i < b.len() && a.subrange(0, i) =~= b.subrange(0, i) && #[trigger] lt(
                        a[i],
                        b[i],
                    );
                if i > 0 {
                    assert(a.subrange(0, i)[0] == b.subrange(0, i)[0]);
                    assert forall|j: int| 0 <= j < i - 1 implies a1[j] == b1[j] by {
                        assert(a[j + 1] == a.subrange(0, i)[j + 1]);
                        assert(b[j + 1] == b.subrange(0, i)[j + 1]);
                    }
                    assert(a1.subrange(0, i - 1) =~= b1.subrange(0, i - 1));
                    assert(lt(a1[i - 1], b1[i - 1]));
                }
            }
        }
    }
}

/// Characters sort by code point, a name by its characters, and a path by
/// its names: two one-character names compare as their characters' code
/// points, and two one-name paths as their names.
pub proof fn law_items_order(x: char, y: char, n: Seq<char>, m: Seq<char>)
    ensures
        name_lt(seq![x], seq![y]) <==> (x as int) < (y as int),
        path_lt(seq![n], seq![m]) <==> name_lt(n, m),
{
    let c = char_order();
    let o = name_order();
    assert(seq![x].drop_first() =~= Seq::<char>::empty());
    assert(seq![y].drop_first() =~= Seq::<char>::empty());
    assert(seq![n].drop_first() =~= Seq::<Seq<char>>::empty());
    assert(seq![m].drop_first() =~= Seq::<Seq<char>>::empty());
    assert(seq![x][0] == x && seq![y][0] == y);
    assert(seq![n][0] == n && seq![m][0] == m);
    assert(c(x, y) == char_lt(x, y));
    assert(o(n, m) == name_lt(n, m));
    assert(!lex_lt(Seq::<char>::empty(), Seq::<char>::empty(), c));
    assert(!lex_lt(Seq::<Seq<char>>::empty(), Seq::<Seq<char>>::empty(), o));
    assert(name_lt(seq![x], seq![y]) == lex_lt(seq![x], seq![y], c));
    assert(path_lt(seq![n], seq![m]) == lex_lt(seq![n], seq![m], o));
    if n == m {
        lemma_path_order();
        assert(is_strict_total(c)) by {
            assert forall|p: char, q: char| #[trigger] c(p, q) || p == q || #[trigger] c(q, p) by {
                if (p as int) == (q as int) {
                    assert(p == q);
                }
            }
        }
        lemma_lex_irreflexive(n, c);
    }
}

/// What a pattern sorts by: a binding by its name, `_` by `_`, and a path
/// pattern (alone, with fields or with a tuple) by its whole path, one name
/// per segment in order; any other pattern cannot be sorted.
pub proof fn law_pattern_sorts_by_its_names(p: PatModel)
    ensures
        match p {
            PatModel::Ident { name } => pat_name(p) == Some(seq![name@]),
            PatModel::Path { segments } => pat_name(p) matches Some(names) && names.len()
                == segments@.len() && forall|k: int| 0 <= k < names.len() ==> #[trigger] names[k] == segments@[k]@,
            PatModel::Struct { segments } => pat_name(p) matches Some(names) && names.len()
                == segments@.len() && forall|k: int| 0 <= k < names.len() ==> #[trigger] names[k] == segments@[k]@,
            PatModel::TupleStruct { segments } => pat_name(p) matches Some(names) && names.len()
                == segments@.len() && forall|k: int| 0 <= k < names.len() ==> #[trigger] names[k] == segments@[k]@,
            PatModel::Wild => pat_name(p) == Some(seq!["_"@]),
            PatModel::Other => pat_name(p) is None,
        },
{
}

/// Two path arms whose whole paths are out of order make the check fail:
/// when every arm can be sorted, and the path of a later arm `j` sorts
/// before that of an earlier arm `i`, the check of the arms is an error.
pub proof fn law_path_arms_out_of_order_are_refused(pats: Seq<PatModel>, r: Result<(), SortError>, i: int, j: int)
    requires
        match_answer(pats, r),
        forall|k: int| 0 <= k < pats.len() ==> pat_name(#[trigger] pats[k]) is Some,
        0 <= i < j < pats.len(),
        pats[i] is Path,
        pats[j] is Path,
        path_lt(names_view(pats[j]->Path_segments@), names_view(pats[i]->Path_segments@)),
    ensures
        r is Err,
{
    let items = Seq::new(pats.len(), |k: int| pat_name(pats[k])->0);
    if exists|k: int| 0 <= k < pats.len() && pat_name(#[trigger] pats[k]) is None {
        let k = choose|k: int| 0 <= k < pats.len() && pat_name(#[trigger] pats[k]) is None;
        assert(pat_name(pats[k]) is Some);
    }
    assert(is_sorted_answer(items, r));
    law_sorted_iff_in_order(items, r);
    assert(items[i] == names_view(pats[i]->Path_segments@));
    assert(items[j] == names_view(pats[j]->Path_segments@));
    assert(path_lt(items[j], items[i]));
}

proof fn lemma_sorted_prefix(items: Seq<Seq<Seq<char>>>, i: int, j: int)
    requires
        0 <= i < j < items.len(),
        sorted_up_to(items, items.len() as int),
        is_strict_total(path_order()),
    ensures
        !path_lt(items[j], items[i]),
    decreases j - i,
{
    assert(!path_lt(items[j], items[j - 1]));
    if i < j - 1 {
        lemma_sorted_prefix(items, i, j - 1);
        if path_lt(items[j], items[i]) {
            assert(path_order()(items[j - 1], items[i]) || items[j - 1] == items[i] || path_order()(items[i], items[j - 1]));
            assert(path_order()(items[j], items[j - 1]) || items[j] == items[j - 1] || path_order()(items[j - 1], items[j]));
            if path_order()(items[j - 1], items[j]) {
                assert(path_order()(items[j], items[i]));
                assert(path_order()(items[j - 1], items[i]));
            }
        }
    }
}

} // verus!
