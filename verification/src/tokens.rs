//! A plain model of a token stream, as procedural macros receive and
//! produce it, and small text helpers shared by the macros.
//!
//! Spans are kept as numbers: `SpanId` indexes a table of spans that the
//! caller keeps, and the id 0 stands for the call site of the macro.
use vstd::prelude::*;

verus! {

/// A span, as an index into the caller's table of spans.
pub type SpanId = usize;

/// The span id that stands for the call site of the macro.
pub open spec fn call_site() -> SpanId {
    0
}

/// The delimiter of a group.
#[derive(Clone, Copy, PartialEq, Eq, Structural, Debug)]
pub enum Delimiter {
    Parenthesis,
    Brace,
    Bracket,
    Invisible,
}

/// A token tree: a delimited group of token trees, an identifier (its
/// text, `r#` included for a raw one), a punctuation character (joint when
/// the next character belongs to the same operator), or a literal (its
/// source text).
pub enum TokenTree {
    Group { delimiter: Delimiter, stream: Vec<TokenTree>, span: SpanId },
    Ident { name: Vec<char>, span: SpanId },
    Punct { ch: char, joint: bool, span: SpanId },
    Literal { text: Vec<char>, span: SpanId },
}

/// The mathematical value of a `TokenTree`.
pub enum Tok {
    Group { delimiter: Delimiter, stream: Seq<Tok>, span: SpanId },
    Ident { name: Seq<char>, span: SpanId },
    Punct { ch: char, joint: bool, span: SpanId },
    Literal { text: Seq<char>, span: SpanId },
}

/// The value of a token tree.
pub open spec fn tree_view(t: TokenTree) -> Tok
    decreases t,
{
    match t {
        TokenTree::Group { delimiter, stream, span } => Tok::Group {
            delimiter,
            stream: stream_view(stream@),
            span,
        },
        TokenTree::Ident { name, span } => Tok::Ident { name: name@, span },
        TokenTree::Punct { ch, joint, span } => Tok::Punct { ch, joint, span },
        TokenTree::Literal { text, span } => Tok::Literal { text: text@, span },
    }
}

/// The value of a sequence of token trees.
pub open spec fn stream_view(s: Seq<TokenTree>) -> Seq<Tok>
    decreases s,
{
    Seq::new(
        s.len(),
        |i: int|
            if 0 <= i < s.len() {
                tree_view(s[i])
            } else {
                Tok::Punct { ch: ' ', joint: false, span: 0 }
            },
    )
}

/// A copy of a token tree.
pub fn copy_tree(t: &TokenTree) -> (r: TokenTree)
    ensures tree_view(r) == tree_view(*t),
    decreases t,
{
    match t {
        TokenTree::Group { delimiter, stream, span } => {
            let s = copy_stream(stream);
            TokenTree::Group { delimiter: *delimiter, stream: s, span: *span }
        },
        TokenTree::Ident { name, span } => TokenTree::Ident { name: name.clone(), span: *span },
        TokenTree::Punct { ch, joint, span } => TokenTree::Punct { ch: *ch, joint: *joint, span: *span },
        TokenTree::Literal { text, span } => TokenTree::Literal { text: text.clone(), span: *span },
    }
}

/// A copy of a token stream.
pub fn copy_stream(s: &Vec<TokenTree>) -> (r: Vec<TokenTree>)
    ensures stream_view(r@) == stream_view(s@),
    decreases s,
{
    let mut r: Vec<TokenTree> = Vec::new();
    let mut i: usize = 0;
    while i < s.len()
        invariant
            i <= s.len(),
            r@.len() == i,
            forall|j: int| 0 <= j < i ==> tree_view(#[trigger] r@[j]) == tree_view(s@[j]),
        decreases s.len() - i,
    {
        let t = copy_tree(&s[i]);
        r.push(t);
        i += 1;
    }
    assert(stream_view(r@) =~= stream_view(s@));
    r
}

/// The span of a token.
pub open spec fn span_of(t: Tok) -> SpanId {
    match t {
        Tok::Group { span, .. } => span,
        Tok::Ident { span, .. } => span,
        Tok::Punct { span, .. } => span,
        Tok::Literal { span, .. } => span,
    }
}

/// The span of a token.
pub fn token_span(t: &TokenTree) -> (r: SpanId)
    ensures
        r == span_of(tree_view(*t)),
{
    match t {
        TokenTree::Group { span, .. } => *span,
        TokenTree::Ident { span, .. } => *span,
        TokenTree::Punct { span, .. } => *span,
        TokenTree::Literal { span, .. } => *span,
    }
}

/// An error of a macro: a message and the span it points at.
pub struct MacroError {
    pub span: SpanId,
    pub message: Vec<char>,
}

/// The value of a `MacroError`.
pub struct ErrorV {
    pub span: SpanId,
    pub message: Seq<char>,
}

impl View for MacroError {
    type V = ErrorV;

    open spec fn view(&self) -> ErrorV {
        ErrorV { span: self.span, message: self.message@ }
    }
}

/// The texts of a sequence of texts.
pub open spec fn names_view(n: Seq<Vec<char>>) -> Seq<Seq<char>> {
    Seq::new(n.len(), |i: int| n[i]@)
}

/// Whether two texts are equal.
pub fn chars_eq(a: &Vec<char>, b: &Vec<char>) -> (r: bool)
    ensures
        r == (a@ == b@),
{
    if a.len() != b.len() {
        return false;
    }
    let mut i: usize = 0;
    while i < a.len()
        invariant
            a@.len() == b@.len(),
            i <= a@.len(),
            forall|j: int| 0 <= j < i ==> a@[j] == b@[j],
        decreases a.len() - i,
    {
        if a[i] != b[i] {
            return false;
        }
        i += 1;
    }
    assert(a@ =~= b@);
    true
}

/// Whether a text equals a string.
pub fn chars_eq_str(a: &Vec<char>, s: &str) -> (r: bool)
    ensures
        r == (a@ == s@),
{
    let b = chars_of(s);
    chars_eq(a, &b)
}

/// The characters of a string.
pub fn chars_of(s: &str) -> (r: Vec<char>)
    ensures
        r@ == s@,
{
    let n = s.unicode_len();
    let mut r: Vec<char> = Vec::new();
    let mut i: usize = 0;
    while i < n
        invariant
            n == s@.len(),
            i <= n,
            r@ == s@.subrange(0, i as int),
        decreases n - i,
    {
        r.push(s.get_char(i));
        i += 1;
        assert(r@ =~= s@.subrange(0, i as int));
    }
    assert(s@.subrange(0, n as int) =~= s@);
    r
}

/// A copy of a text.
pub fn copy_chars(a: &Vec<char>) -> (r: Vec<char>)
    ensures
        r@ == a@,
{
    let mut r: Vec<char> = Vec::new();
    let mut i: usize = 0;
    while i < a.len()
        invariant
            i <= a@.len(),
            r@ == a@.subrange(0, i as int),
        decreases a.len() - i,
    {
        r.push(a[i]);
        i += 1;
        assert(r@ =~= a@.subrange(0, i as int));
    }
    assert(a@.subrange(0, a@.len() as int) =~= a@);
    r
}

/// A copy of a sequence of texts.
pub fn copy_names(names: &Vec<Vec<char>>) -> (r: Vec<Vec<char>>)
    ensures
        names_view(r@) == names_view(names@),
{
    let mut r: Vec<Vec<char>> = Vec::new();
    let mut i: usize = 0;
    while i < names.len()
        invariant
            i <= names@.len(),
            r@.len() == i,
            forall|j: int| 0 <= j < i ==> #[trigger] r@[j]@ == names@[j]@,
        decreases names.len() - i,
    {
        r.push(copy_chars(&names[i]));
        i += 1;
    }
    assert(names_view(r@) =~= names_view(names@));
    r
}

/// Appends the characters of `b` to `a`.
pub fn append_chars(a: &mut Vec<char>, b: &Vec<char>)
    ensures
        final(a)@ == old(a)@ + b@,
{
    let mut i: usize = 0;
    while i < b.len()
        invariant
            i <= b@.len(),
            a@ == old(a)@ + b@.subrange(0, i as int),
        decreases b.len() - i,
    {
        a.push(b[i]);
        i += 1;
        assert(a@ =~= old(a)@ + b@.subrange(0, i as int));
    }
    assert(b@.subrange(0, b@.len() as int) =~= b@);
}

/// The decimal digit for `d`.
pub open spec fn digit_char(d: nat) -> char {
    (48 + d) as char
}

/// The decimal numeral of `n`, without sign or leading zeros.
pub open spec fn decimal(n: nat) -> Seq<char>
    decreases n,
{
    if n < 10 {
        seq![digit_char(n)]
    } else {
        decimal(n / 10).push(digit_char(n % 10))
    }
}

/// The decimal numeral of `n`.
pub fn decimal_chars(n: usize) -> (r: Vec<char>)
    ensures
        r@ == decimal(n as nat),
    decreases n,
{
    let d = n % 10;
    let c: char = if d == 0 { '0' } else if d == 1 { '1' } else if d == 2 { '2' } else if d == 3 {
        '3'
    } else if d == 4 { '4' } else if d == 5 { '5' } else if d == 6 { '6' } else if d == 7 { '7' } else if d
        == 8 { '8' } else { '9' };
    if n < 10 {
        let mut r: Vec<char> = Vec::new();
        r.push(c);
        r
    } else {
        let mut r = decimal_chars(n / 10);
        r.push(c);
        r
    }
}

/// The numeral written for `n` reads back as `n`: it is a plain decimal
/// literal whose value is `n`, and it has no leading zero.
pub proof fn law_decimal_reads_back(n: nat)
    ensures
        crate::syn_calls::is_plain_decimal(decimal(n)),
        crate::syn_calls::decimal_value(decimal(n)) == n,
        n >= 10 ==> decimal(n)[0] != '0',
    decreases n,
{
    let s = decimal(n);
    if n < 10 {
        assert(s.drop_last() =~= Seq::<char>::empty());
        assert(crate::syn_calls::decimal_value(s.drop_last()) == 0);
    } else {
        law_decimal_reads_back(n / 10);
        let t = decimal(n / 10);
        assert(s.drop_last() =~= t);
        assert(s.last() == digit_char(n % 10));
        assert(forall|i: int| 0 <= i < t.len() ==> s[i] == t[i]);
        assert(s[0] == t[0]);
        if n / 10 < 10 {
            assert(t[0] == digit_char(n / 10));
        }
        assert forall|i: int| 0 <= i < s.len() implies ('0' <= #[trigger] s[i] <= '9' || s[i] == '_') by {
            if i < t.len() {
                assert(s[i] == t[i]);
            }
        }
    }
}

/// An identifier's text without the `r#` of a raw identifier.
pub open spec fn unraw(name: Seq<char>) -> Seq<char> {
    if name.len() >= 2 && name[0] == 'r' && name[1] == '#' {
        name.subrange(2, name.len() as int)
    } else {
        name
    }
}

/// An identifier's text without the `r#` of a raw identifier.
pub fn unraw_chars(name: &Vec<char>) -> (r: Vec<char>)
    ensures
        r@ == unraw(name@),
{
    if name.len() >= 2 && name[0] == 'r' && name[1] == '#' {
        let mut r: Vec<char> = Vec::new();
        let mut i: usize = 2;
        while i < name.len()
            invariant
                2 <= i <= name@.len(),
                r@ == name@.subrange(2, i as int),
            decreases name.len() - i,
        {
            r.push(name[i]);
            i += 1;
            assert(r@ =~= name@.subrange(2, i as int));
        }
        r
    } else {
        copy_chars(name)
    }
}

} // verus!
