//! `seq!(N in 0..8 { ... })`: repeats a body of tokens once for each number
//! of a range, with the identifier `N` replaced by the number.
//!
//! Inside the body, `prefix~N` pastes the number onto an identifier, and a
//! section `#( ... )*` marks the only part to repeat: the rest of the body
//! then appears once.
use crate::tokens::{
    call_site, chars_eq, chars_of, copy_chars, decimal, unraw, unraw_chars, ErrorV, MacroError, copy_stream, copy_tree, span_of, stream_view, token_span, tree_view, Delimiter,
    SpanId, Tok, TokenTree,
};
use vstd::prelude::*;

verus! {

/// A piece of a `seq!` body: plain tokens, a delimited group of pieces, an
/// occurrence of the placeholder (with the identifier pasted before it, if
/// any), or a section `#( ... )*` to repeat.
pub enum SeqPart {
    TokenStream { tokens: Vec<TokenTree> },
    Group { delimiter: Delimiter, span: SpanId, parts: Vec<SeqPart> },
    Placeholder { span: SpanId, prefix: Option<Vec<char>> },
    Repeated { parts: Vec<SeqPart> },
}

/// The value of a `SeqPart`.
pub enum PartV {
    TokenStream { tokens: Seq<Tok> },
    Group { delimiter: Delimiter, span: SpanId, parts: Seq<PartV> },
    Placeholder { span: SpanId, prefix: Option<Seq<char>> },
    Repeated { parts: Seq<PartV> },
}

/// The value of a piece.
pub open spec fn part_view(p: SeqPart) -> PartV
    decreases p,
{
    match p {
        SeqPart::TokenStream { tokens } => PartV::TokenStream { tokens: stream_view(tokens@) },
        SeqPart::Group { delimiter, span, parts } => PartV::Group {
            delimiter,
            span,
            parts: parts_view(parts@),
        },
        SeqPart::Placeholder { span, prefix } => PartV::Placeholder {
            span,
            prefix: match prefix {
                Some(p) => Some(p@),
                None => None,
            },
        },
        SeqPart::Repeated { parts } => PartV::Repeated { parts: parts_view(parts@) },
    }
}

/// The value of a sequence of pieces.
pub open spec fn parts_view(s: Seq<SeqPart>) -> Seq<PartV>
    decreases s,
{
    Seq::new(
        s.len(),
        |i: int|
            if 0 <= i < s.len() {
                part_view(s[i])
            } else {
                PartV::Repeated { parts: Seq::empty() }
            },
    )
}

/// Whether `t` is an occurrence of the placeholder identifier `ph`.
pub open spec fn is_placeholder(ph: Seq<char>, t: Tok) -> bool {
    t matches Tok::Ident { name, .. } && name == ph
}

/// Whether `t` is the punctuation character `c`.
pub open spec fn is_punct(t: Tok, c: char) -> bool {
    t matches Tok::Punct { ch, .. } && ch == c
}

/// The pieces `parts`, followed by the pending tokens `stream` if there are any.
pub open spec fn flush(parts: Seq<PartV>, stream: Seq<Tok>) -> Seq<PartV> {
    if stream.len() > 0 {
        parts.push(PartV::TokenStream { tokens: stream })
    } else {
        parts
    }
}

/// Whether the pending tokens end with `ident ~`, to be pasted before a placeholder.
pub open spec fn ends_with_paste(stream: Seq<Tok>) -> bool {
    &&& stream.len() > 1
    &&& stream[stream.len() - 2] is Ident
    &&& is_punct(stream[stream.len() - 1], '~')
}

/// Whether `t` closes a section `#( ... )*`: it is a `*` that follows a group,
/// itself following plain tokens that end with `#`.
pub open spec fn closes_repetition(parts: Seq<PartV>, t: Tok) -> bool {
    &&& is_punct(t, '*')
    &&& parts.len() > 1
    &&& parts[parts.len() - 1] is Group
    &&& parts[parts.len() - 2] matches PartV::TokenStream { tokens } && tokens.len() > 0
        && is_punct(tokens[tokens.len() - 1], '#')
}

/// The pieces found so far and the pending plain tokens, after reading `toks`.
pub open spec fn scan(ph: Seq<char>, toks: Seq<Tok>) -> (Seq<PartV>, Seq<Tok>)
    decreases toks, 0nat,
{
    if toks.len() == 0 {
        (Seq::empty(), Seq::empty())
    } else {
        let (parts, stream) = scan(ph, toks.drop_last());
        let t = toks.last();
        if is_placeholder(ph, t) {
            if ends_with_paste(stream) {
                let prefix = stream[stream.len() - 2];
                (
                    flush(parts, stream.subrange(0, stream.len() - 2)).push(
                        PartV::Placeholder { span: span_of(prefix), prefix: Some(prefix->name) },
                    ),
                    Seq::empty(),
                )
            } else {
                (
                    flush(parts, stream).push(PartV::Placeholder { span: span_of(t), prefix: None }),
                    Seq::empty(),
                )
            }
        } else if t is Group {
            (
                flush(parts, stream).push(
                    PartV::Group {
                        delimiter: t->delimiter,
                        span: span_of(t),
                        parts: from_stream_spec(ph, t->stream),
                    },
                ),
                Seq::empty(),
            )
        } else if closes_repetition(parts, t) {
            let prec = parts[parts.len() - 2]->tokens;
            (
                parts.subrange(0, parts.len() - 2).push(
                    PartV::TokenStream { tokens: prec.drop_last() },
                ).push(PartV::Repeated { parts: parts[parts.len() - 1]->Group_parts }),
                stream,
            )
        } else {
            (parts, stream.push(t))
        }
    }
}

/// The pieces of the tokens `toks` of a body whose placeholder is `ph`.
pub open spec fn from_stream_spec(ph: Seq<char>, toks: Seq<Tok>) -> Seq<PartV>
    decreases toks, 1nat,
{
    flush(scan(ph, toks).0, scan(ph, toks).1)
}

/// Whether a piece holds a section to repeat.
pub open spec fn has_repetition_spec(p: PartV) -> bool
    decreases p, 1nat,
{
    match p {
        PartV::Repeated { .. } => true,
        PartV::Group { parts, .. } => any_repetition(parts),
        _ => false,
    }
}

/// Whether some piece of `ps` holds a section to repeat.
pub open spec fn any_repetition(ps: Seq<PartV>) -> bool
    decreases ps, 0nat,
{
    if ps.len() == 0 {
        false
    } else {
        any_repetition(ps.drop_last()) || has_repetition_spec(ps.last())
    }
}

} // verus!

verus! {

proof fn lemma_parts_view_push(s: Seq<SeqPart>, p: SeqPart)
    ensures
        parts_view(s.push(p)) == parts_view(s).push(part_view(p)),
{
    assert(parts_view(s.push(p)) =~= parts_view(s).push(part_view(p)));
}

proof fn lemma_stream_view_push(s: Seq<TokenTree>, t: TokenTree)
    ensures
        stream_view(s.push(t)) == stream_view(s).push(tree_view(t)),
{
    assert(stream_view(s.push(t)) =~= stream_view(s).push(tree_view(t)));
}

proof fn lemma_stream_view_subrange(s: Seq<TokenTree>, i: int, j: int)
    requires
        0 <= i <= j <= s.len(),
    ensures
        stream_view(s.subrange(i, j)) == stream_view(s).subrange(i, j),
{
    assert(stream_view(s.subrange(i, j)) =~= stream_view(s).subrange(i, j));
}

proof fn lemma_parts_view_subrange(s: Seq<SeqPart>, i: int, j: int)
    requires
        0 <= i <= j <= s.len(),
    ensures
        parts_view(s.subrange(i, j)) == parts_view(s).subrange(i, j),
{
    assert(parts_view(s.subrange(i, j)) =~= parts_view(s).subrange(i, j));
}

fn is_punct_char(t: &TokenTree, c: char) -> (r: bool)
    ensures
        r == is_punct(tree_view(*t), c),
{
    match t {
        TokenTree::Punct { ch, .. } => *ch == c,
        _ => false,
    }
}

/// Moves the pending tokens, if any, into a piece of their own.
fn flush_stream(seq: &mut Vec<SeqPart>, stream: &mut Vec<TokenTree>)
    ensures
        parts_view(final(seq)@) == flush(parts_view(old(seq)@), stream_view(old(stream)@)),
        final(stream)@.len() == 0,
{
    if stream.len() > 0 {
        let mut taken: Vec<TokenTree> = Vec::new();
        std::mem::swap(&mut taken, stream);
        let ghost before = seq@;
        seq.push(SeqPart::TokenStream { tokens: taken });
        proof {
            lemma_parts_view_push(before, SeqPart::TokenStream { tokens: taken });
        }
    } else {
        assert(stream_view(stream@).len() == 0);
    }
}

impl SeqPart {
    /// Splits the tokens of a body whose placeholder is `placeholder` into pieces.
    pub fn from_stream(placeholder: &Vec<char>, toks: &Vec<TokenTree>) -> (r: Vec<SeqPart>)
        ensures
            parts_view(r@) == from_stream_spec(placeholder@, stream_view(toks@)),
        decreases toks,
    {
        let mut seq: Vec<SeqPart> = Vec::new();
        let mut stream: Vec<TokenTree> = Vec::new();
        let mut i: usize = 0;
        proof {
            assert(stream_view(toks@).subrange(0, 0) =~= Seq::<Tok>::empty());
            assert(parts_view(seq@) =~= Seq::<PartV>::empty());
            assert(stream_view(stream@) =~= Seq::<Tok>::empty());
        }
        while i < toks.len()
            invariant
                i <= toks@.len(),
                (parts_view(seq@), stream_view(stream@)) == scan(
                    placeholder@,
                    stream_view(toks@).subrange(0, i as int),
                ),
            decreases toks.len() - i,
        {
            let ghost all = stream_view(toks@);
            proof {
                assert(all.subrange(0, i + 1).drop_last() =~= all.subrange(0, i as int));
                assert(all.subrange(0, i + 1).last() == tree_view(toks@[i as int]));
            }
            let tree = &toks[i];
            let is_ph = match tree {
                TokenTree::Ident { name, .. } => chars_eq(name, placeholder),
                _ => false,
            };
            if is_ph {
                let mut span = token_span(tree);
                let mut prefix: Option<Vec<char>> = None;
                let n = stream.len();
                if n > 1 && is_ident_tree(&stream[n - 2]) && is_punct_char(&stream[n - 1], '~') {
                    let ghost before = stream@;
                    stream.pop();
                    let popped = stream.pop();
                    proof {
                        assert(stream@ == before.subrange(0, n - 2));
                        lemma_stream_view_subrange(before, 0, n - 2);
                    }
                    match popped {
                        Some(TokenTree::Ident { name, span: s }) => {
                            span = s;
                            prefix = Some(name);
                        },
                        _ => {},
                    }
                }
                flush_stream(&mut seq, &mut stream);
                let ghost before = seq@;
                seq.push(SeqPart::Placeholder { span, prefix });
                proof {
                    lemma_parts_view_push(before, SeqPart::Placeholder { span, prefix });
                    assert(stream_view(stream@) =~= Seq::<Tok>::empty());
                }
            } else {
                match tree {
                    TokenTree::Group { delimiter, stream: inner, span } => {
                        proof {
                            assert(decreases_to!(toks => toks@[i as int]));
                        }
                        let parts = SeqPart::from_stream(placeholder, inner);
                        flush_stream(&mut seq, &mut stream);
                        let ghost before = seq@;
                        let part = SeqPart::Group { delimiter: *delimiter, span: *span, parts };
                        seq.push(part);
                        proof {
                            lemma_parts_view_push(before, part);
                            assert(stream_view(stream@) =~= Seq::<Tok>::empty());
                        }
                    },
                    _ => {
                        if is_punct_char(tree, '*') && closes_repetition_exec(&seq) {
                            let ghost before = seq@;
                            let group = seq.pop();
                            let prec = seq.pop();
                            proof {
                                lemma_parts_view_subrange(before, 0, before.len() - 2);
                            }
                            match (prec, group) {
                                (
                                    Some(SeqPart::TokenStream { tokens: mut prec_tokens }),
                                    Some(SeqPart::Group { parts, .. }),
                                ) => {
                                    let ghost pt = prec_tokens@;
                                    prec_tokens.pop();
                                    proof {
                                        lemma_stream_view_subrange(pt, 0, pt.len() - 1);
                                    }
                                    let ghost mid = seq@;
                                    let first = SeqPart::TokenStream { tokens: prec_tokens };
                                    seq.push(first);
                                    proof {
                                        lemma_parts_view_push(mid, first);
                                    }
                                    let ghost mid2 = seq@;
                                    let second = SeqPart::Repeated { parts };
                                    seq.push(second);
                                    proof {
                                        lemma_parts_view_push(mid2, second);
                                    }
                                },
                                _ => {},
                            }
                        } else {
                            let ghost before = stream@;
                            let copy = copy_tree(tree);
                            stream.push(copy);
                            proof {
                                lemma_stream_view_push(before, copy);
                            }
                        }
                    },
                }
            }
            i += 1;
        }
        proof {
            assert(stream_view(toks@).subrange(0, toks@.len() as int) =~= stream_view(toks@));
        }
        flush_stream(&mut seq, &mut stream);
        seq
    }
}

fn is_ident_tree(t: &TokenTree) -> (r: bool)
    ensures
        r == (tree_view(*t) is Ident),
{
    match t {
        TokenTree::Ident { .. } => true,
        _ => false,
    }
}

/// Whether the pieces end with plain tokens ending in `#`, then a group.
fn closes_repetition_exec(seq: &Vec<SeqPart>) -> (r: bool)
    ensures
        r == {
            let parts = parts_view(seq@);
            &&& parts.len() > 1
            &&& parts[parts.len() - 1] is Group
            &&& parts[parts.len() - 2] matches PartV::TokenStream { tokens } && tokens.len() > 0
                && is_punct(tokens[tokens.len() - 1], '#')
        },
{
    let n = seq.len();
    if n < 2 {
        return false;
    }
    let last_is_group = match &seq[n - 1] {
        SeqPart::Group { .. } => true,
        _ => false,
    };
    if !last_is_group {
        return false;
    }
    match &seq[n - 2] {
        SeqPart::TokenStream { tokens } => {
            let m = tokens.len();
            m > 0 && is_punct_char(&tokens[m - 1], '#')
        },
        _ => false,
    }
}

} // verus!

verus! {

/// The tokens `compile_error!("message")`, all at the call site.
pub open spec fn compile_error_spec(message: Seq<char>) -> Seq<Tok> {
    seq![
        Tok::Ident { name: "compile_error"@, span: call_site() },
        Tok::Punct { ch: '!', joint: false, span: call_site() },
        Tok::Group {
            delimiter: Delimiter::Parenthesis,
            stream: seq![
                Tok::Literal { text: seq!['"'] + message + seq!['"'], span: call_site() },
            ],
            span: call_site(),
        },
    ]
}

/// The message for a placeholder outside the section to repeat.
pub open spec fn placeholder_outside_message() -> Seq<char> {
    "Placeholder outside of repeated section"@
}

/// The message for a section to repeat inside another one.
pub open spec fn nested_repeat_message() -> Seq<char> {
    "Repeat inside repeat is not supported"@
}

/// The tokens of a piece for the number `n`.
pub open spec fn subst_part(p: PartV, n: nat) -> Seq<Tok>
    decreases p, 1nat,
{
    match p {
        PartV::TokenStream { tokens } => tokens,
        PartV::Group { delimiter, span, parts } => seq![
            Tok::Group { delimiter, stream: subst_parts(parts, n), span },
        ],
        PartV::Placeholder { span, prefix } => match prefix {
            None => seq![Tok::Literal { text: decimal(n), span }],
            Some(pre) => seq![Tok::Ident { name: unraw(pre) + decimal(n), span }],
        },
        PartV::Repeated { .. } => compile_error_spec(nested_repeat_message()),
    }
}

/// The tokens of the pieces `ps` for the number `n`, one piece after the other.
pub open spec fn subst_parts(ps: Seq<PartV>, n: nat) -> Seq<Tok>
    decreases ps, 0nat,
{
    if ps.len() == 0 {
        Seq::empty()
    } else {
        subst_parts(ps.drop_last(), n) + subst_part(ps.last(), n)
    }
}

/// The tokens of the pieces `ps` for the `count` numbers from `start` on, one
/// number after the other.
pub open spec fn repeat_range(ps: Seq<PartV>, start: nat, count: nat) -> Seq<Tok>
    decreases count,
{
    if count == 0 {
        Seq::empty()
    } else {
        repeat_range(ps, start, (count - 1) as nat) + subst_parts(ps, (start + count - 1) as nat)
    }
}

/// The number of integers from `start` to `end`, both included.
pub open spec fn range_len(start: nat, end: nat) -> nat {
    if start <= end {
        (end - start + 1) as nat
    } else {
        0
    }
}

/// The tokens of a top-level piece when its sections repeat for the numbers
/// `start ..= end`.
pub open spec fn repeat_part(p: PartV, start: nat, end: nat) -> Seq<Tok>
    decreases p, 1nat,
{
    match p {
        PartV::TokenStream { tokens } => tokens,
        PartV::Group { delimiter, span, parts } => seq![
            Tok::Group { delimiter, stream: repeat_parts(parts, start, end), span },
        ],
        PartV::Placeholder { .. } => compile_error_spec(placeholder_outside_message()),
        PartV::Repeated { parts } => repeat_range(parts, start, range_len(start, end)),
    }
}

/// The tokens of the top-level pieces `ps`, one piece after the other.
pub open spec fn repeat_parts(ps: Seq<PartV>, start: nat, end: nat) -> Seq<Tok>
    decreases ps, 0nat,
{
    if ps.len() == 0 {
        Seq::empty()
    } else {
        repeat_parts(ps.drop_last(), start, end) + repeat_part(ps.last(), start, end)
    }
}

/// Appends `more` to `out`.
fn append_tokens(out: &mut Vec<TokenTree>, more: Vec<TokenTree>)
    ensures
        stream_view(final(out)@) == stream_view(old(out)@) + stream_view(more@),
{
    let mut more = more;
    let ghost m = more@;
    out.append(&mut more);
    proof {
        assert(stream_view(old(out)@ + m) =~= stream_view(old(out)@) + stream_view(m));
    }
}

/// The tokens `compile_error!("message")`, all at the call site.
fn compile_error_tokens(message: &str) -> (r: Vec<TokenTree>)
    ensures
        stream_view(r@) == compile_error_spec(message@),
{
    let mut text: Vec<char> = Vec::new();
    text.push('"');
    let body = crate::tokens::chars_of(message);
    crate::tokens::append_chars(&mut text, &body);
    text.push('"');
    let mut inner: Vec<TokenTree> = Vec::new();
    inner.push(TokenTree::Literal { text, span: 0 });
    let mut r: Vec<TokenTree> = Vec::new();
    r.push(TokenTree::Ident { name: crate::tokens::chars_of("compile_error"), span: 0 });
    r.push(TokenTree::Punct { ch: '!', joint: false, span: 0 });
    r.push(TokenTree::Group { delimiter: Delimiter::Parenthesis, stream: inner, span: 0 });
    proof {
        assert(text@ =~= seq!['"'] + message@ + seq!['"']);
        assert(stream_view(inner@) =~= seq![Tok::Literal { text: text@, span: 0 }]);
        assert(stream_view(r@) =~= compile_error_spec(message@));
    }
    r
}

impl SeqPart {
    /// The tokens of this piece for the number `n`.
    pub fn substitute(&self, n: usize) -> (r: Vec<TokenTree>)
        ensures
            stream_view(r@) == subst_part(part_view(*self), n as nat),
        decreases *self,
    {
        match self {
            SeqPart::Placeholder { span, prefix } => {
                let mut r: Vec<TokenTree> = Vec::new();
                match prefix {
                    None => {
                        r.push(TokenTree::Literal { text: crate::tokens::decimal_chars(n), span: *span });
                    },
                    Some(pre) => {
                        let mut name = unraw_chars(pre);
                        let digits = crate::tokens::decimal_chars(n);
                        crate::tokens::append_chars(&mut name, &digits);
                        r.push(TokenTree::Ident { name, span: *span });
                    },
                }
                proof {
                    assert(stream_view(r@) =~= subst_part(part_view(*self), n as nat));
                }
                r
            },
            SeqPart::Group { delimiter, span, parts } => {
                let stream = substitute_all(parts, n);
                let mut r: Vec<TokenTree> = Vec::new();
                r.push(TokenTree::Group { delimiter: *delimiter, stream, span: *span });
                proof {
                    assert(stream_view(r@) =~= subst_part(part_view(*self), n as nat));
                }
                r
            },
            SeqPart::Repeated { .. } => compile_error_tokens("Repeat inside repeat is not supported"),
            SeqPart::TokenStream { tokens } => copy_stream(tokens),
        }
    }

    /// The tokens of this top-level piece when its sections repeat for the
    /// numbers `start ..= end`.
    pub fn repeated(&self, start: usize, end: usize) -> (r: Vec<TokenTree>)
        ensures
            stream_view(r@) == repeat_part(part_view(*self), start as nat, end as nat),
        decreases *self,
    {
        match self {
            SeqPart::Placeholder { .. } => compile_error_tokens(
                "Placeholder outside of repeated section",
            ),
            SeqPart::Group { delimiter, span, parts } => {
                let stream = repeat_all(parts, start, end);
                let mut r: Vec<TokenTree> = Vec::new();
                r.push(TokenTree::Group { delimiter: *delimiter, stream, span: *span });
                proof {
                    assert(stream_view(r@) =~= repeat_part(part_view(*self), start as nat, end as nat));
                }
                r
            },
            SeqPart::Repeated { parts } => repeat_range_exec(parts, start, end),
            SeqPart::TokenStream { tokens } => copy_stream(tokens),
        }
    }
}

/// The tokens of the pieces for the number `n`, one piece after the other.
fn substitute_all(parts: &Vec<SeqPart>, n: usize) -> (r: Vec<TokenTree>)
    ensures
        stream_view(r@) == subst_parts(parts_view(parts@), n as nat),
    decreases parts,
{
    let mut r: Vec<TokenTree> = Vec::new();
    let mut i: usize = 0;
    proof {
        assert(parts_view(parts@).subrange(0, 0) =~= Seq::<PartV>::empty());
    }
    while i < parts.len()
        invariant
            i <= parts@.len(),
            stream_view(r@) == subst_parts(parts_view(parts@).subrange(0, i as int), n as nat),
        decreases parts.len() - i,
    {
        proof {
            assert(decreases_to!(parts => parts@[i as int]));
            assert(parts_view(parts@).subrange(0, i + 1).drop_last() =~= parts_view(parts@).subrange(
                0,
                i as int,
            ));
        }
        let more = parts[i].substitute(n);
        append_tokens(&mut r, more);
        i += 1;
    }
    proof {
        assert(parts_view(parts@).subrange(0, parts@.len() as int) =~= parts_view(parts@));
    }
    r
}

/// The tokens of the top-level pieces, one piece after the other.
fn repeat_all(parts: &Vec<SeqPart>, start: usize, end: usize) -> (r: Vec<TokenTree>)
    ensures
        stream_view(r@) == repeat_parts(parts_view(parts@), start as nat, end as nat),
    decreases parts,
{
    let mut r: Vec<TokenTree> = Vec::new();
    let mut i: usize = 0;
    proof {
        assert(parts_view(parts@).subrange(0, 0) =~= Seq::<PartV>::empty());
    }
    while i < parts.len()
        invariant
            i <= parts@.len(),
            stream_view(r@) == repeat_parts(
                parts_view(parts@).subrange(0, i as int),
                start as nat,
                end as nat,
            ),
        decreases parts.len() - i,
    {
        proof {
            assert(decreases_to!(parts => parts@[i as int]));
            assert(parts_view(parts@).subrange(0, i + 1).drop_last() =~= parts_view(parts@).subrange(
                0,
                i as int,
            ));
        }
        let more = parts[i].repeated(start, end);
        append_tokens(&mut r, more);
        i += 1;
    }
    proof {
        assert(parts_view(parts@).subrange(0, parts@.len() as int) =~= parts_view(parts@));
    }
    r
}

/// The tokens of the pieces for each number of `start ..= end` in turn.
fn repeat_range_exec(parts: &Vec<SeqPart>, start: usize, end: usize) -> (r: Vec<TokenTree>)
    ensures
        stream_view(r@) == repeat_range(parts_view(parts@), start as nat, range_len(
            start as nat,
            end as nat,
        )),
{
    let mut r: Vec<TokenTree> = Vec::new();
    if start > end {
        return r;
    }
    let mut n = start;
    loop
        invariant_except_break
            start <= n <= end,
            stream_view(r@) == repeat_range(parts_view(parts@), start as nat, (n - start) as nat),
        ensures
            stream_view(r@) == repeat_range(parts_view(parts@), start as nat, (end - start + 1) as nat),
        decreases end - n,
    {
        let more = substitute_all(parts, n);
        append_tokens(&mut r, more);
        if n == end {
            break;
        }
        n += 1;
    }
    r
}

} // verus!

verus! {

/// The tokens with every invisible group replaced by its contents, as the
/// parser of the header sees them.
pub open spec fn flatten_invisible(toks: Seq<Tok>) -> Seq<Tok>
    decreases toks,
{
    if toks.len() == 0 {
        Seq::empty()
    } else {
        flatten_invisible(toks.drop_last()) + match toks.last() {
            Tok::Group { delimiter: Delimiter::Invisible, stream, .. } => flatten_invisible(stream),
            t => seq![t],
        }
    }
}

/// An error at token `i` of `f`, or at the end of the input.
pub open spec fn error_at(f: Seq<Tok>, i: int, message: Seq<char>) -> ErrorV {
    if 0 <= i < f.len() {
        ErrorV { span: span_of(f[i]), message }
    } else {
        ErrorV { span: call_site(), message: "unexpected end of input, "@ + message }
    }
}

/// The text of the integer literal at token `i` of `f` (a literal, or `-`
/// and a literal), and the index of the token after it.
pub open spec fn literal_at(f: Seq<Tok>, i: int) -> Option<(Seq<char>, int)> {
    if !(0 <= i < f.len()) {
        None
    } else if f[i] is Literal {
        Some((f[i]->Literal_text, i + 1))
    } else if is_punct(f[i], '-') && i + 1 < f.len() && f[i + 1] is Literal {
        Some((seq!['-'] + f[i + 1]->Literal_text, i + 2))
    } else {
        None
    }
}

/// The integer read at token `i` of `f`, the literal ending before `next`,
/// once `syn` has answered `answer` for its text.
pub open spec fn int_answer_step(f: Seq<Tok>, i: int, next: int, answer: Option<Result<usize, Seq<char>>>) -> Result<
    (usize, int),
    ErrorV,
> {
    match answer {
        None => Err(error_at(f, i, "expected integer literal"@)),
        Some(Err(m)) => Err(ErrorV { span: span_of(f[i]), message: m }),
        Some(Ok(v)) => Ok((v, next)),
    }
}

/// The integer literal at token `i` of `f`, as a `usize`, and the index of
/// the token after it, `answer` being `syn`'s answer for its text.
pub open spec fn int_at_with(f: Seq<Tok>, i: int, answer: Option<Result<usize, Seq<char>>>) -> Result<
    (usize, int),
    ErrorV,
> {
    match literal_at(f, i) {
        None => Err(error_at(f, i, "expected integer literal"@)),
        Some((_, next)) => int_answer_step(f, i, next, answer),
    }
}

/// The integer literal at token `i` of `f`, `lits(i)` being `syn`'s answer
/// for its text.
pub open spec fn int_at(f: Seq<Tok>, i: int, lits: spec_fn(int) -> Option<Result<usize, Seq<char>>>) -> Result<
    (usize, int),
    ErrorV,
> {
    int_at_with(f, i, lits(i))
}

/// Whether tokens `i` and `i + 1` of `f` are the operator `..`.
pub open spec fn dot_dot_at(f: Seq<Tok>, i: int) -> bool {
    &&& 0 <= i
    &&& i + 1 < f.len()
    &&& f[i] matches Tok::Punct { ch, joint, .. } && ch == '.' && joint
    &&& is_punct(f[i + 1], '.')
}

/// The header of a `seq!` invocation: the placeholder, the range and the body.
pub struct SeqHeaderV {
    pub placeholder: Seq<char>,
    pub start: usize,
    pub end: usize,
    pub inclusive: bool,
    pub body: Seq<Tok>,
}

/// The part of the header after the range's end: the braced body, and nothing after it.
pub open spec fn body_at(f: Seq<Tok>, k: int) -> Result<Seq<Tok>, ErrorV> {
    if !(0 <= k < f.len() && (f[k] matches Tok::Group { delimiter, .. } && delimiter
        == Delimiter::Brace)) {
        Err(error_at(f, k, "expected curly braces"@))
    } else if k + 1 < f.len() {
        Err(ErrorV { span: span_of(f[k + 1]), message: "unexpected token"@ })
    } else {
        Ok(f[k]->Group_stream)
    }
}

/// The header parsed from the (flattened) tokens `f`: `N in a..b { body }`
/// or `N in a..=b { body }`, where `placeholder_ok` tells whether `syn`
/// takes the first identifier for one, and `lits(i)` is `syn`'s answer for
/// the integer literal at token `i`.
pub open spec fn seq_header_spec(
    f: Seq<Tok>,
    placeholder_ok: bool,
    lits: spec_fn(int) -> Option<Result<usize, Seq<char>>>,
) -> Result<SeqHeaderV, ErrorV> {
    if f.len() == 0 || !(f[0] is Ident) {
        Err(error_at(f, 0, "expected identifier"@))
    } else if !placeholder_ok {
        Err(
            ErrorV {
                span: span_of(f[0]),
                message: "expected identifier, found keyword `"@ + f[0]->Ident_name + "`"@,
            },
        )
    } else if !(f.len() > 1 && (f[1] matches Tok::Ident { name, .. } && name == "in"@)) {
        Err(error_at(f, 1, "expected `in`"@))
    } else {
        match int_at(f, 2, lits) {
            Err(e) => Err(e),
            Ok((start, i)) => if !dot_dot_at(f, i) {
                Err(
                    ErrorV {
                        span: if i < f.len() {
                            span_of(f[i])
                        } else {
                            call_site()
                        },
                        message: "expected `..`"@,
                    },
                )
            } else {
                let inclusive = i + 2 < f.len() && is_punct(f[i + 2], '=');
                let j = if inclusive {
                    i + 3
                } else {
                    i + 2
                };
                match int_at(f, j, lits) {
                    Err(e) => Err(e),
                    Ok((end, k)) => match body_at(f, k) {
                        Err(e) => Err(e),
                        Ok(body) => Ok(
                            SeqHeaderV {
                                placeholder: f[0]->Ident_name,
                                start,
                                end,
                                inclusive,
                                body,
                            },
                        ),
                    },
                }
            },
        }
    }
}

/// The pieces of a body: those found in it, or, when it has no section
/// `#( ... )*`, one section made of the whole body.
pub open spec fn seq_body_parts(ph: Seq<char>, body: Seq<Tok>) -> Seq<PartV> {
    let parts = from_stream_spec(ph, body);
    if any_repetition(parts) {
        parts
    } else {
        seq![PartV::Repeated { parts }]
    }
}

/// The last number of the header's range.
pub open spec fn range_end(h: SeqHeaderV) -> nat {
    if h.inclusive {
        h.end as nat
    } else {
        (h.end - 1) as nat
    }
}

/// Whether `placeholder_ok` may be `syn`'s answer for the first token of
/// `f`, when it is an identifier: a reserved word is refused, any other
/// plain ASCII identifier accepted.
pub open spec fn placeholder_answer_fits(f: Seq<Tok>, placeholder_ok: bool) -> bool {
    f.len() > 0 && f[0] is Ident ==> {
        &&& crate::syn_calls::is_reserved_word(f[0]->Ident_name) ==> !placeholder_ok
        &&& crate::syn_calls::is_plain_ascii_ident(f[0]->Ident_name)
            && !crate::syn_calls::is_reserved_word(f[0]->Ident_name) ==> placeholder_ok
    }
}

/// Whether every answer about an integer literal fits its text.
pub open spec fn literal_answers_fit(f: Seq<Tok>, lits: spec_fn(int) -> Option<Result<usize, Seq<char>>>) -> bool {
    forall|i: int|
        (#[trigger] literal_at(f, i)) is Some ==> crate::syn_calls::lit_answer_fits(
            (literal_at(f, i)->0).0,
            lits(i),
        )
}

/// Whether `placeholder_ok` and `lits` may be `syn`'s answers for the
/// tokens `f` of a header.
pub open spec fn header_answers_fit(
    f: Seq<Tok>,
    placeholder_ok: bool,
    lits: spec_fn(int) -> Option<Result<usize, Seq<char>>>,
) -> bool {
    placeholder_answer_fits(f, placeholder_ok) && literal_answers_fit(f, lits)
}

/// The tokens of the body of the header `h`, repeated for its range.
pub open spec fn expand_header(h: SeqHeaderV) -> Seq<Tok> {
    repeat_parts(seq_body_parts(h.placeholder, h.body), h.start as nat, range_end(h))
}

/// What `seq!` expands the tokens `input` to, or the error it reports, given
/// `syn`'s answers.
pub open spec fn seq_spec(
    input: Seq<Tok>,
    placeholder_ok: bool,
    lits: spec_fn(int) -> Option<Result<usize, Seq<char>>>,
) -> Result<Seq<Tok>, ErrorV> {
    match seq_header_spec(flatten_invisible(input), placeholder_ok, lits) {
        Err(e) => Err(e),
        Ok(h) => Ok(expand_header(h)),
    }
}

/// What `seq!` answers for the tokens `input`, given `syn`'s answers:
/// nothing for a range `a..0`, whose end cannot be stepped back from, else
/// the expansion or the error.
pub open spec fn seq_answer(
    input: Seq<Tok>,
    placeholder_ok: bool,
    lits: spec_fn(int) -> Option<Result<usize, Seq<char>>>,
) -> Option<Result<Seq<Tok>, ErrorV>> {
    match seq_header_spec(flatten_invisible(input), placeholder_ok, lits) {
        Err(e) => Some(Err(e)),
        Ok(h) => if !h.inclusive && h.end == 0 {
            None
        } else {
            Some(Ok(expand_header(h)))
        },
    }
}

} // verus!

verus! {

/// The header of a `seq!` invocation.
pub struct SeqHeader {
    pub placeholder: Vec<char>,
    pub start: usize,
    pub end: usize,
    pub inclusive: bool,
    pub body: Vec<TokenTree>,
}

impl View for SeqHeader {
    type V = SeqHeaderV;

    open spec fn view(&self) -> SeqHeaderV {
        SeqHeaderV {
            placeholder: self.placeholder@,
            start: self.start,
            end: self.end,
            inclusive: self.inclusive,
            body: stream_view(self.body@),
        }
    }
}

/// The value of a result that is a value or an error.
pub open spec fn result_view<T, V>(r: Result<T, MacroError>, f: spec_fn(T) -> V) -> Result<V, ErrorV> {
    match r {
        Ok(v) => Ok(f(v)),
        Err(e) => Err(e@),
    }
}

/// The tokens with every invisible group replaced by its contents.
pub fn flatten_invisible_exec(toks: &Vec<TokenTree>) -> (r: Vec<TokenTree>)
    ensures
        stream_view(r@) == flatten_invisible(stream_view(toks@)),
    decreases toks,
{
    let mut r: Vec<TokenTree> = Vec::new();
    let mut i: usize = 0;
    proof {
        assert(stream_view(toks@).subrange(0, 0) =~= Seq::<Tok>::empty());
    }
    while i < toks.len()
        invariant
            i <= toks@.len(),
            stream_view(r@) == flatten_invisible(stream_view(toks@).subrange(0, i as int)),
        decreases toks.len() - i,
    {
        proof {
            assert(stream_view(toks@).subrange(0, i + 1).drop_last() =~= stream_view(toks@).subrange(
                0,
                i as int,
            ));
            assert(decreases_to!(toks => toks@[i as int]));
        }
        match &toks[i] {
            TokenTree::Group { delimiter, stream, .. } if *delimiter == Delimiter::Invisible => {
                let inner = flatten_invisible_exec(stream);
                append_tokens(&mut r, inner);
            },
            t => {
                let ghost before = r@;
                let c = copy_tree(t);
                r.push(c);
                proof {
                    assert(stream_view(r@) =~= stream_view(before) + seq![tree_view(c)]);
                }
            },
        }
        i += 1;
    }
    proof {
        assert(stream_view(toks@).subrange(0, toks@.len() as int) =~= stream_view(toks@));
    }
    r
}

fn concat3(a: &str, b: &Vec<char>, c: &str) -> (r: Vec<char>)
    ensures
        r@ == a@ + b@ + c@,
{
    let mut r = chars_of(a);
    crate::tokens::append_chars(&mut r, b);
    let tail = chars_of(c);
    crate::tokens::append_chars(&mut r, &tail);
    r
}

/// An error at token `i` of `f`, or at the end of the input.
fn error_at_exec(f: &Vec<TokenTree>, i: usize, message: &str) -> (r: MacroError)
    ensures
        r@ == error_at(stream_view(f@), i as int, message@),
{
    if i < f.len() {
        MacroError { span: token_span(&f[i]), message: chars_of(message) }
    } else {
        let empty: Vec<char> = Vec::new();
        MacroError { span: 0, message: concat3("unexpected end of input, ", &empty, message) }
    }
}

/// The text of the integer literal at token `i` of `f`, and the index of
/// the token after it.
fn literal_at_exec(f: &Vec<TokenTree>, i: usize) -> (r: Option<(Vec<char>, usize)>)
    ensures
        match r {
            Some((t, next)) => literal_at(stream_view(f@), i as int) == Some((t@, next as int)),
            None => literal_at(stream_view(f@), i as int) is None,
        },
{
    if i >= f.len() {
        return None;
    }
    match &f[i] {
        TokenTree::Literal { text: t, .. } => Some((copy_chars(t), i + 1)),
        TokenTree::Punct { ch, .. } if *ch == '-' && i + 1 < f.len() => match &f[i + 1] {
            TokenTree::Literal { text: t, .. } => {
                let mut minus: Vec<char> = Vec::new();
                minus.push('-');
                crate::tokens::append_chars(&mut minus, t);
                proof {
                    assert(minus@ =~= seq!['-'] + t@);
                }
                Some((minus, i + 2))
            },
            _ => None,
        },
        _ => None,
    }
}

/// The integer read at token `i` of `f`, the literal ending before `next`,
/// given `syn`'s answer for its text: the value, or the error.
pub fn int_from_answer(
    f: &Vec<TokenTree>,
    i: usize,
    next: usize,
    answer: Option<Result<usize, Vec<char>>>,
) -> (r: Result<(usize, usize), MacroError>)
    requires
        i < f@.len(),
    ensures
        result_view(r, |p: (usize, usize)| (p.0, p.1 as int)) == int_answer_step(
            stream_view(f@),
            i as int,
            next as int,
            crate::syn_calls::lit_answer_view(answer),
        ),
{
    match answer {
        None => Err(error_at_exec(f, i, "expected integer literal")),
        Some(Err(m)) => Err(MacroError { span: token_span(&f[i]), message: m }),
        Some(Ok(v)) => Ok((v, next)),
    }
}

/// The integer literal at token `i` of `f`, asking `syn` for its value; the
/// answer comes back beside the result.
fn int_at_exec(f: &Vec<TokenTree>, i: usize) -> (r: (
    Result<(usize, usize), MacroError>,
    Ghost<Option<Result<usize, Seq<char>>>>,
))
    ensures
        literal_at(stream_view(f@), i as int) matches Some(p) ==> crate::syn_calls::lit_answer_fits(
            p.0,
            r.1@,
        ),
        result_view(r.0, |p: (usize, usize)| (p.0, p.1 as int)) == int_at_with(stream_view(f@), i as int, r.1@),
{
    match literal_at_exec(f, i) {
        None => (Err(error_at_exec(f, i, "expected integer literal")), Ghost(None)),
        Some((t, next)) => {
            let answer = crate::syn_calls::parse_lit_usize(&t);
            let ghost a = crate::syn_calls::lit_answer_view(answer);
            (int_from_answer(f, i, next, answer), Ghost(a))
        },
    }
}

fn is_dot_dot(f: &Vec<TokenTree>, i: usize) -> (r: bool)
    ensures
        r == dot_dot_at(stream_view(f@), i as int),
{
    if i >= f.len() || f.len() - i < 2 {
        return false;
    }
    let first = match &f[i] {
        TokenTree::Punct { ch, joint, .. } => *ch == '.' && *joint,
        _ => false,
    };
    first && is_punct_char(&f[i + 1], '.')
}

/// Parses the header of a `seq!` invocation: `N in a..b { body }` or
/// `N in a..=b { body }`, asking `syn` whether the placeholder is an
/// identifier and what the range's literals are.
pub fn parse_seq_header(input: &Vec<TokenTree>) -> (r: Result<SeqHeader, MacroError>)
    ensures
        exists|ok: bool, lits: spec_fn(int) -> Option<Result<usize, Seq<char>>>|
            header_answers_fit(flatten_invisible(stream_view(input@)), ok, lits) && result_view(
                r,
                |h: SeqHeader| h@,
            ) == seq_header_spec(flatten_invisible(stream_view(input@)), ok, lits),
{
    let f = flatten_invisible_exec(input);
    let ok = if f.len() > 0 {
        match &f[0] {
            TokenTree::Ident { name, .. } => {
                let answer = crate::syn_calls::parse_ident(name);
                answer.is_ok()
            },
            _ => true,
        }
    } else {
        true
    };
    let r = seq_header_from(&f, ok);
    proof {
        assert(placeholder_answer_fits(flatten_invisible(stream_view(input@)), ok));
    }
    r
}

/// An answer about an integer literal that fits its text.
spec fn default_literal_answer(l: Option<(Seq<char>, int)>) -> Option<Result<usize, Seq<char>>> {
    match l {
        Some((t, _)) => if crate::syn_calls::is_plain_decimal(t) {
            if crate::syn_calls::decimal_value(t) <= usize::MAX {
                Some(Ok(crate::syn_calls::decimal_value(t) as usize))
            } else {
                Some(Err(Seq::empty()))
            }
        } else {
            None
        },
        None => None,
    }
}

/// The header of a `seq!` invocation from its (flattened) tokens `f`, where
/// `placeholder_ok` is `syn`'s answer to whether the first identifier is
/// one; `syn` is asked what the range's literals are.
pub fn seq_header_from(f: &Vec<TokenTree>, placeholder_ok: bool) -> (r: Result<SeqHeader, MacroError>)
    ensures
        exists|lits: spec_fn(int) -> Option<Result<usize, Seq<char>>>|
            literal_answers_fit(stream_view(f@), lits) && result_view(r, |h: SeqHeader| h@)
                == seq_header_spec(stream_view(f@), placeholder_ok, lits),
{
    let ghost fv = stream_view(f@);
    let ghost mut lits: spec_fn(int) -> Option<Result<usize, Seq<char>>> = |p: int|
        default_literal_answer(literal_at(fv, p));
    proof {
        assert(literal_answers_fit(fv, lits));
    }
    if f.len() == 0 {
        let r = Err(error_at_exec(f, 0, "expected identifier"));
        proof {
            assert(result_view(r, |h: SeqHeader| h@) == seq_header_spec(fv, placeholder_ok, lits));
        }
        return r;
    }
    let name = match &f[0] {
        TokenTree::Ident { name, .. } => copy_chars(name),
        _ => {
            let r = Err(error_at_exec(f, 0, "expected identifier"));
            proof {
                assert(result_view(r, |h: SeqHeader| h@) == seq_header_spec(fv, placeholder_ok, lits));
            }
            return r;
        },
    };
    if !placeholder_ok {
        let r = Err(
            MacroError {
                span: token_span(&f[0]),
                message: concat3("expected identifier, found keyword `", &name, "`"),
            },
        );
        proof {
            assert(result_view(r, |h: SeqHeader| h@) == seq_header_spec(fv, placeholder_ok, lits));
        }
        return r;
    }
    let is_in = f.len() > 1 && match &f[1] {
        TokenTree::Ident { name, .. } => crate::tokens::chars_eq_str(name, "in"),
        _ => false,
    };
    let r = if !is_in {
        Err(error_at_exec(f, 1, "expected `in`"))
    } else {
        let (first, Ghost(a1)) = int_at_exec(f, 2);
        proof {
            let before = lits;
            lits = |p: int| if p == 2 { a1 } else { before(p) };
            assert forall|p: int| (#[trigger] literal_at(fv, p)) is Some implies crate::syn_calls::lit_answer_fits(
                (literal_at(fv, p)->0).0,
                lits(p),
            ) by {
                if p != 2 {
                    assert(crate::syn_calls::lit_answer_fits((literal_at(fv, p)->0).0, before(p)));
                }
            }
        }
        match first {
            Err(e) => Err(e),
            Ok((start, i)) => {
                if !is_dot_dot(f, i) {
                    let span = if i < f.len() {
                        token_span(&f[i])
                    } else {
                        0
                    };
                    Err(MacroError { span, message: chars_of("expected `..`") })
                } else {
                    let inclusive = i + 2 < f.len() && is_punct_char(&f[i + 2], '=');
                    let j = if inclusive {
                        i + 3
                    } else {
                        i + 2
                    };
                    let (second, Ghost(a2)) = int_at_exec(f, j);
                    proof {
                        let before = lits;
                        let jj = j as int;
                        assert(jj > 2);
                        lits = |p: int| if p == jj { a2 } else { before(p) };
                        assert forall|p: int| (#[trigger] literal_at(fv, p)) is Some implies crate::syn_calls::lit_answer_fits(
                            (literal_at(fv, p)->0).0,
                            lits(p),
                        ) by {
                            if p != jj {
                                assert(crate::syn_calls::lit_answer_fits((literal_at(fv, p)->0).0, before(p)));
                            }
                        }
                        assert(lits(2) == a1);
                    }
                    match second {
                        Err(e) => Err(e),
                        Ok((end, k)) => {
                            let body = if k < f.len() {
                                match &f[k] {
                                    TokenTree::Group { delimiter, stream, .. } if *delimiter == Delimiter::Brace => Some(
                                        copy_stream(stream),
                                    ),
                                    _ => None,
                                }
                            } else {
                                None
                            };
                            match body {
                                None => Err(error_at_exec(f, k, "expected curly braces")),
                                Some(body) => {
                                    if k + 1 < f.len() {
                                        Err(MacroError { span: token_span(&f[k + 1]), message: chars_of("unexpected token") })
                                    } else {
                                        Ok(SeqHeader { placeholder: name, start, end, inclusive, body })
                                    }
                                },
                            }
                        },
                    }
                }
            },
        }
    };
    proof {
        assert(literal_answers_fit(fv, lits));
    }
    r
}

impl SeqPart {
    /// Whether this piece holds a section to repeat.
    pub fn has_repetition(&self) -> (r: bool)
        ensures
            r == has_repetition_spec(part_view(*self)),
        decreases *self,
    {
        match self {
            SeqPart::Repeated { .. } => true,
            SeqPart::Group { parts, .. } => any_has_repetition(parts),
            _ => false,
        }
    }
}

/// Whether some piece holds a section to repeat.
fn any_has_repetition(parts: &Vec<SeqPart>) -> (r: bool)
    ensures
        r == any_repetition(parts_view(parts@)),
    decreases parts,
{
    let mut i: usize = 0;
    let mut found = false;
    proof {
        assert(parts_view(parts@).subrange(0, 0) =~= Seq::<PartV>::empty());
    }
    while i < parts.len()
        invariant
            i <= parts@.len(),
            found == any_repetition(parts_view(parts@).subrange(0, i as int)),
        decreases parts.len() - i,
    {
        proof {
            assert(parts_view(parts@).subrange(0, i + 1).drop_last() =~= parts_view(parts@).subrange(
                0,
                i as int,
            ));
            assert(decreases_to!(parts => parts@[i as int]));
        }
        let h = parts[i].has_repetition();
        found = found || h;
        i += 1;
    }
    proof {
        assert(parts_view(parts@).subrange(0, parts@.len() as int) =~= parts_view(parts@));
    }
    found
}

/// Expands a parsed header: the tokens of its body, repeated for each
/// number of its range.
pub fn seq_from_header(header: &SeqHeader) -> (r: Vec<TokenTree>)
    requires
        header.inclusive || header.end > 0,
    ensures
        stream_view(r@) == expand_header(header@),
{
    let end = if header.inclusive {
        header.end
    } else {
        header.end - 1
    };
    let mut parts = SeqPart::from_stream(&header.placeholder, &header.body);
    if !any_has_repetition(&parts) {
        let whole = SeqPart::Repeated { parts };
        parts = Vec::new();
        parts.push(whole);
        proof {
            assert(parts_view(parts@) =~= seq![part_view(whole)]);
        }
    }
    repeat_all(&parts, header.start, end)
}

/// The value of an answer of `seq`.
pub open spec fn seq_result_view(r: Option<Result<Vec<TokenTree>, MacroError>>) -> Option<Result<Seq<Tok>, ErrorV>> {
    match r {
        None => None,
        Some(Ok(t)) => Some(Ok(stream_view(t@))),
        Some(Err(e)) => Some(Err(e@)),
    }
}

/// Expands `seq!`: the tokens of the body repeated for each number of the
/// range, or the error of a malformed header; nothing for a range `a..0`,
/// whose end cannot be stepped back from.
pub fn seq(input: &Vec<TokenTree>) -> (r: Option<Result<Vec<TokenTree>, MacroError>>)
    ensures
        exists|ok: bool, lits: spec_fn(int) -> Option<Result<usize, Seq<char>>>|
            header_answers_fit(flatten_invisible(stream_view(input@)), ok, lits) && seq_result_view(r)
                == seq_answer(stream_view(input@), ok, lits),
{
    let ghost fl = flatten_invisible(stream_view(input@));
    let parsed = parse_seq_header(input);
    let ghost (ok, lits) = choose|ok: bool, lits: spec_fn(int) -> Option<Result<usize, Seq<char>>>|
        header_answers_fit(fl, ok, lits) && result_view(parsed, |h: SeqHeader| h@) == seq_header_spec(
            fl,
            ok,
            lits,
        );
    let r = match parsed {
        Err(e) => Some(Err(e)),
        Ok(h) => {
            if !h.inclusive && h.end == 0 {
                None
            } else {
                Some(Ok(seq_from_header(&h)))
            }
        },
    };
    proof {
        assert(header_answers_fit(fl, ok, lits) && seq_result_view(r) == seq_answer(stream_view(input@), ok, lits));
    }
    r
}

} // verus!

verus! {

/// The tokens `toks` for the number `n`: each occurrence of the placeholder
/// `ph` replaced by the number, and `ident ~ ph` by the identifier `ident`
/// followed by the number's digits, inside groups too.
pub open spec fn subst_tokens(ph: Seq<char>, toks: Seq<Tok>, n: nat) -> Seq<Tok>
    decreases toks,
{
    if toks.len() == 0 {
        Seq::empty()
    } else {
        let k = toks.len();
        let t = toks.last();
        if is_placeholder(ph, t) {
            if k >= 3 && toks[k - 3] is Ident && !is_placeholder(ph, toks[k - 3]) && is_punct(
                toks[k - 2],
                '~',
            ) {
                subst_tokens(ph, toks.subrange(0, k - 3), n).push(
                    Tok::Ident {
                        name: unraw(toks[k - 3]->Ident_name) + decimal(n),
                        span: span_of(toks[k - 3]),
                    },
                )
            } else {
                subst_tokens(ph, toks.drop_last(), n).push(
                    Tok::Literal { text: decimal(n), span: span_of(t) },
                )
            }
        } else if t is Group {
            subst_tokens(ph, toks.drop_last(), n).push(
                Tok::Group {
                    delimiter: t->delimiter,
                    stream: subst_tokens(ph, t->stream, n),
                    span: span_of(t),
                },
            )
        } else {
            subst_tokens(ph, toks.drop_last(), n).push(t)
        }
    }
}

/// The tokens `toks` for each of the `count` numbers from `start` on, one
/// number after the other.
pub open spec fn repeat_tokens(ph: Seq<char>, toks: Seq<Tok>, start: nat, count: nat) -> Seq<Tok>
    decreases count,
{
    if count == 0 {
        Seq::empty()
    } else {
        repeat_tokens(ph, toks, start, (count - 1) as nat) + subst_tokens(
            ph,
            toks,
            (start + count - 1) as nat,
        )
    }
}

proof fn lemma_any_repetition_push(ps: Seq<PartV>, p: PartV)
    ensures
        any_repetition(ps.push(p)) == (any_repetition(ps) || has_repetition_spec(p)),
{
    assert(ps.push(p).drop_last() =~= ps);
}

proof fn lemma_any_repetition_flush(ps: Seq<PartV>, s: Seq<Tok>)
    ensures
        any_repetition(flush(ps, s)) == any_repetition(ps),
{
    if s.len() > 0 {
        lemma_any_repetition_push(ps, PartV::TokenStream { tokens: s });
    }
}

proof fn lemma_subst_parts_push(ps: Seq<PartV>, p: PartV, n: nat)
    ensures
        subst_parts(ps.push(p), n) == subst_parts(ps, n) + subst_part(p, n),
{
    assert(ps.push(p).drop_last() =~= ps);
}

proof fn lemma_subst_parts_flush(ps: Seq<PartV>, s: Seq<Tok>, n: nat)
    ensures
        subst_parts(flush(ps, s), n) == subst_parts(ps, n) + s,
{
    if s.len() > 0 {
        lemma_subst_parts_push(ps, PartV::TokenStream { tokens: s }, n);
    } else {
        assert(subst_parts(ps, n) + s =~= subst_parts(ps, n));
    }
}

/// Whether a token ends the pending plain tokens: a placeholder or a group.
pub open spec fn is_cut(ph: Seq<char>, t: Tok) -> bool {
    is_placeholder(ph, t) || t is Group
}

/// One step of the scan keeps a found section to repeat.
proof fn lemma_scan_keeps_repetition(ph: Seq<char>, toks: Seq<Tok>)
    requires
        toks.len() > 0,
        any_repetition(scan(ph, toks.drop_last()).0),
    ensures
        any_repetition(scan(ph, toks).0),
{
    let (parts, stream) = scan(ph, toks.drop_last());
    let t = toks.last();
    if is_placeholder(ph, t) {
        if ends_with_paste(stream) {
            let prefix = stream[stream.len() - 2];
            let rest = stream.subrange(0, stream.len() - 2);
            lemma_any_repetition_flush(parts, rest);
            lemma_any_repetition_push(
                flush(parts, rest),
                PartV::Placeholder { span: span_of(prefix), prefix: Some(prefix->name) },
            );
        } else {
            lemma_any_repetition_flush(parts, stream);
            lemma_any_repetition_push(
                flush(parts, stream),
                PartV::Placeholder { span: span_of(t), prefix: None },
            );
        }
    } else if t is Group {
        lemma_any_repetition_flush(parts, stream);
        lemma_any_repetition_push(
            flush(parts, stream),
            PartV::Group {
                delimiter: t->delimiter,
                span: span_of(t),
                parts: from_stream_spec(ph, t->stream),
            },
        );
    } else if closes_repetition(parts, t) {
        let prec = parts[parts.len() - 2]->tokens;
        let base = parts.subrange(0, parts.len() - 2).push(PartV::TokenStream { tokens: prec.drop_last() });
        lemma_any_repetition_push(base, PartV::Repeated { parts: parts[parts.len() - 1]->Group_parts });
    }
}

/// What the scan of a body without sections to repeat has found: pieces
/// that give the tokens read so far, up to the pending tokens, and pending
/// tokens that are the last tokens read, none of them a placeholder or a
/// group, the one before them (if any) being one.
proof fn lemma_scan_clean(ph: Seq<char>, toks: Seq<Tok>, n: nat)
    requires
        !any_repetition(scan(ph, toks).0),
    ensures
        ({
            let (parts, stream) = scan(ph, toks);
            &&& subst_parts(parts, n) + stream == subst_tokens(ph, toks, n)
            &&& stream.len() <= toks.len()
            &&& stream == toks.subrange(toks.len() - stream.len(), toks.len() as int)
            &&& forall|i: int| 0 <= i < stream.len() ==> !is_cut(ph, #[trigger] stream[i])
            &&& stream.len() < toks.len() ==> is_cut(ph, toks[toks.len() - stream.len() - 1])
        }),
    decreases toks, 1nat,
{
    if toks.len() == 0 {
        assert(subst_parts(Seq::<PartV>::empty(), n) + Seq::<Tok>::empty() =~= Seq::<Tok>::empty());
    } else {
        let prev = toks.drop_last();
        if any_repetition(scan(ph, prev).0) {
            lemma_scan_keeps_repetition(ph, toks);
        }
        lemma_scan_clean(ph, prev, n);
        let (parts, stream) = scan(ph, prev);
        let t = toks.last();
        let k = toks.len() as int;
        assert(toks.subrange(0, k - 1) =~= prev);
        if is_placeholder(ph, t) {
            if ends_with_paste(stream) {
                let m = stream.len() as int;
                let prefix = stream[m - 2];
                let rest = stream.subrange(0, m - 2);
                assert(toks[k - 3] == prefix);
                assert(toks[k - 2] == stream[m - 1]);
                assert(!is_cut(ph, stream[m - 2]));
                lemma_subst_parts_flush(parts, rest, n);
                let ph_part = PartV::Placeholder { span: span_of(prefix), prefix: Some(prefix->name) };
                lemma_subst_parts_push(flush(parts, rest), ph_part, n);
                // the two tokens before the placeholder come out as they are
                let before2 = toks.subrange(0, k - 3);
                assert(prev.drop_last() =~= toks.subrange(0, k - 2));
                assert(toks.subrange(0, k - 2).drop_last() =~= before2);
                assert(!is_cut(ph, stream[m - 1]));
                assert(subst_tokens(ph, prev, n) == subst_tokens(ph, toks.subrange(0, k - 2), n).push(
                    toks[k - 2],
                ));
                assert(subst_tokens(ph, toks.subrange(0, k - 2), n) == subst_tokens(ph, before2, n).push(
                    toks[k - 3],
                ));
                assert(stream =~= rest.push(stream[m - 2]).push(stream[m - 1]));
                assert(subst_parts(parts, n) + rest == subst_tokens(ph, before2, n)) by {
                    let a = subst_parts(parts, n) + rest;
                    let b = subst_tokens(ph, before2, n);
                    assert(a.push(toks[k - 3]).push(toks[k - 2]) =~= subst_parts(parts, n) + stream);
                    assert(b.push(toks[k - 3]).push(toks[k - 2]) == subst_tokens(ph, prev, n));
                    assert(a =~= a.push(toks[k - 3]).push(toks[k - 2]).subrange(0, a.len() as int));
                    assert(b =~= b.push(toks[k - 3]).push(toks[k - 2]).subrange(0, b.len() as int));
                }
                assert(subst_parts(scan(ph, toks).0, n) + scan(ph, toks).1 =~= subst_tokens(ph, toks, n));
            } else {
                if k >= 3 && toks[k - 3] is Ident && !is_placeholder(ph, toks[k - 3]) && is_punct(
                    toks[k - 2],
                    '~',
                ) {
                    // both tokens are pending, so the paste would have been seen
                    assert(!is_cut(ph, toks[k - 2]));
                    assert(!is_cut(ph, toks[k - 3]));
                    assert(stream.len() >= 2);
                    assert(stream[stream.len() - 1] == toks[k - 2]);
                    assert(stream[stream.len() - 2] == toks[k - 3]);
                    assert(false);
                }
                lemma_subst_parts_flush(parts, stream, n);
                lemma_subst_parts_push(
                    flush(parts, stream),
                    PartV::Placeholder { span: span_of(t), prefix: None },
                    n,
                );
                assert(subst_parts(scan(ph, toks).0, n) + scan(ph, toks).1 =~= subst_tokens(ph, toks, n));
            }
        } else if t is Group {
            let inner = from_stream_spec(ph, t->stream);
            let g = PartV::Group { delimiter: t->delimiter, span: span_of(t), parts: inner };
            lemma_any_repetition_flush(parts, stream);
            lemma_any_repetition_push(flush(parts, stream), g);
            lemma_from_stream_clean(ph, t->stream, n);
            lemma_subst_parts_flush(parts, stream, n);
            lemma_subst_parts_push(flush(parts, stream), g, n);
            assert(subst_parts(scan(ph, toks).0, n) + scan(ph, toks).1 =~= subst_tokens(ph, toks, n));
        } else {
            if closes_repetition(parts, t) {
                let prec = parts[parts.len() - 2]->tokens;
                let base = parts.subrange(0, parts.len() - 2).push(
                    PartV::TokenStream { tokens: prec.drop_last() },
                );
                lemma_any_repetition_push(
                    base,
                    PartV::Repeated { parts: parts[parts.len() - 1]->Group_parts },
                );
            }
            assert(subst_parts(parts, n) + stream.push(t) =~= (subst_parts(parts, n) + stream).push(t));
        }
        let (p2, s2) = scan(ph, toks);
        assert(s2 =~= toks.subrange(toks.len() - s2.len(), toks.len() as int));
    }
}

/// The pieces of a body without sections to repeat give its tokens with
/// the placeholder replaced.
proof fn lemma_from_stream_clean(ph: Seq<char>, toks: Seq<Tok>, n: nat)
    requires
        !any_repetition(from_stream_spec(ph, toks)),
    ensures
        subst_parts(from_stream_spec(ph, toks), n) == subst_tokens(ph, toks, n),
    decreases toks, 2nat,
{
    let (parts, stream) = scan(ph, toks);
    lemma_any_repetition_flush(parts, stream);
    lemma_scan_clean(ph, toks, n);
    lemma_subst_parts_flush(parts, stream, n);
}

} // verus!

verus! {

proof fn lemma_repeat_range_clean(ph: Seq<char>, body: Seq<Tok>, start: nat, count: nat)
    requires
        !any_repetition(from_stream_spec(ph, body)),
    ensures
        repeat_range(from_stream_spec(ph, body), start, count) == repeat_tokens(ph, body, start, count),
    decreases count,
{
    if count > 0 {
        lemma_repeat_range_clean(ph, body, start, (count - 1) as nat);
        lemma_from_stream_clean(ph, body, (start + count - 1) as nat);
    }
}

/// `seq!` over a body without a section `#( ... )*` gives the body once for
/// each number of the range, in order, with the placeholder replaced by the
/// number and `ident~N` pasted into one identifier.
pub proof fn law_seq_repeats_whole_body(
    input: Seq<Tok>,
    placeholder_ok: bool,
    lits: spec_fn(int) -> Option<Result<usize, Seq<char>>>,
    h: SeqHeaderV,
)
    requires
        seq_header_spec(flatten_invisible(input), placeholder_ok, lits) == Ok::<SeqHeaderV, ErrorV>(h),
        !any_repetition(from_stream_spec(h.placeholder, h.body)),
    ensures
        seq_spec(input, placeholder_ok, lits) == Ok::<Seq<Tok>, ErrorV>(
            repeat_tokens(h.placeholder, h.body, h.start as nat, range_len(h.start as nat, range_end(h))),
        ),
{
    let parts = from_stream_spec(h.placeholder, h.body);
    let whole = seq![PartV::Repeated { parts }];
    assert(whole.drop_last() =~= Seq::<PartV>::empty());
    let count = range_len(h.start as nat, range_end(h));
    lemma_repeat_range_clean(h.placeholder, h.body, h.start as nat, count);
    assert(whole.last() == PartV::Repeated { parts });
    assert(repeat_parts(whole.drop_last(), h.start as nat, range_end(h)) == Seq::<Tok>::empty());
    assert(repeat_part(whole.last(), h.start as nat, range_end(h)) == repeat_range(
        parts,
        h.start as nat,
        count,
    ));
    assert(repeat_parts(whole, h.start as nat, range_end(h)) =~= repeat_range(
        parts,
        h.start as nat,
        count,
    ));
}

/// The header's range holds the numbers `start .. end` or `start ..= end`:
/// an exclusive range repeats `end - start` times and an inclusive one
/// `end - start + 1` times (none when it is empty).
pub proof fn law_range_counts_its_numbers(h: SeqHeaderV)
    requires
        h.inclusive || h.end > 0,
    ensures
        h.inclusive ==> range_len(h.start as nat, range_end(h)) == if h.start <= h.end {
            h.end - h.start + 1
        } else {
            0
        },
        !h.inclusive ==> range_len(h.start as nat, range_end(h)) == if h.start < h.end {
            h.end - h.start
        } else {
            0
        },
{
}

/// Repeating a body runs through the numbers in order: `count1 + count2`
/// numbers from `start` give the first `count1` from `start`, then the
/// next `count2`; and one number gives the body for that number.
pub proof fn law_repeat_runs_in_order(ph: Seq<char>, toks: Seq<Tok>, start: nat, count1: nat, count2: nat)
    ensures
        repeat_tokens(ph, toks, start, count1 + count2) == repeat_tokens(ph, toks, start, count1)
            + repeat_tokens(ph, toks, start + count1, count2),
        repeat_tokens(ph, toks, start, 1) == subst_tokens(ph, toks, start),
    decreases count2,
{
    assert(repeat_tokens(ph, toks, start, 0) =~= Seq::<Tok>::empty());
    assert(repeat_tokens(ph, toks, start, 1) =~= Seq::<Tok>::empty() + subst_tokens(ph, toks, start));
    if count2 == 0 {
        assert(repeat_tokens(ph, toks, start + count1, 0) =~= Seq::<Tok>::empty());
        assert(repeat_tokens(ph, toks, start, count1) + Seq::<Tok>::empty() =~= repeat_tokens(
            ph,
            toks,
            start,
            count1,
        ));
    } else {
        law_repeat_runs_in_order(ph, toks, start, count1, (count2 - 1) as nat);
        assert((count1 + count2 - 1) as nat == count1 + (count2 - 1) as nat);
        assert((start + (count1 + count2) - 1) as nat == (start + count1 + count2 - 1) as nat);
        assert(repeat_tokens(ph, toks, start, count1 + count2) =~= repeat_tokens(ph, toks, start, count1)
            + repeat_tokens(ph, toks, start + count1, count2));
    }
}

/// The placeholder alone becomes the number's decimal literal, at the
/// placeholder's span; `ident~N` becomes one identifier, `ident` followed
/// by the number's digits, at the span of `ident`.
pub proof fn law_placeholder_becomes_number(ph: Seq<char>, n: nat, t: Tok, f: Tok, tilde: Tok)
    requires
        is_placeholder(ph, t),
        f is Ident,
        !is_placeholder(ph, f),
        is_punct(tilde, '~'),
    ensures
        subst_tokens(ph, seq![t], n) == seq![Tok::Literal { text: decimal(n), span: span_of(t) }],
        subst_tokens(ph, seq![f, tilde, t], n) == seq![
            Tok::Ident { name: unraw(f->Ident_name) + decimal(n), span: span_of(f) },
        ],
{
    assert(seq![t].drop_last() =~= Seq::<Tok>::empty());
    assert(seq![f, tilde, t].subrange(0, 0) =~= Seq::<Tok>::empty());
    assert(subst_tokens(ph, Seq::<Tok>::empty(), n) =~= Seq::<Tok>::empty());
    assert(Seq::<Tok>::empty().push(Tok::Literal { text: decimal(n), span: span_of(t) }) =~= seq![
        Tok::Literal { text: decimal(n), span: span_of(t) },
    ]);
    assert(Seq::<Tok>::empty().push(Tok::Ident { name: unraw(f->Ident_name) + decimal(n), span: span_of(f) })
        =~= seq![Tok::Ident { name: unraw(f->Ident_name) + decimal(n), span: span_of(f) }]);
}

/// A body that never mentions the placeholder comes out unchanged for
/// every number.
pub proof fn law_subst_without_placeholder(ph: Seq<char>, toks: Seq<Tok>, n: nat)
    requires
        !stream_mentions(ph, toks),
    ensures
        subst_tokens(ph, toks, n) == toks,
    decreases toks,
{
    if toks.len() > 0 {
        let t = toks.last();
        assert(!stream_mentions(ph, toks.drop_last()) && !tok_mentions(ph, t));
        law_subst_without_placeholder(ph, toks.drop_last(), n);
        match t {
            Tok::Group { delimiter, stream, span } => {
                assert(!stream_mentions(ph, stream));
                law_subst_without_placeholder(ph, stream, n);
                assert(!is_placeholder(ph, t));
            },
            _ => {
                assert(!is_placeholder(ph, t));
            },
        }
        assert(toks.drop_last().push(t) =~= toks);
    }
}

/// Whether the placeholder occurs in the tokens, inside groups too.
pub open spec fn stream_mentions(ph: Seq<char>, s: Seq<Tok>) -> bool
    decreases s, 0nat,
{
    s.len() > 0 && (stream_mentions(ph, s.drop_last()) || tok_mentions(ph, s.last()))
}

/// Whether the placeholder occurs in the token, inside groups too.
pub open spec fn tok_mentions(ph: Seq<char>, t: Tok) -> bool
    decreases t, 1nat,
{
    match t {
        Tok::Group { stream, .. } => stream_mentions(ph, stream),
        _ => is_placeholder(ph, t),
    }
}

/// A token as text: its spans left out, and its spacing too.
pub open spec fn bare(t: Tok) -> Tok
    decreases t, 1nat,
{
    match t {
        Tok::Group { delimiter, stream, .. } => Tok::Group { delimiter, stream: bare_stream(stream), span: 0 },
        Tok::Ident { name, .. } => Tok::Ident { name, span: 0 },
        Tok::Punct { ch, .. } => Tok::Punct { ch, joint: false, span: 0 },
        Tok::Literal { text, .. } => Tok::Literal { text, span: 0 },
    }
}

/// Tokens as text: their spans and spacing left out.
pub open spec fn bare_stream(s: Seq<Tok>) -> Seq<Tok>
    decreases s, 0nat,
{
    if s.len() == 0 {
        Seq::empty()
    } else {
        bare_stream(s.drop_last()).push(bare(s.last()))
    }
}

/// The tokens a piece of a `seq!` body was read from, as far as they can
/// be told again: a section to repeat is written `#( ... )*`.
pub open spec fn unparse_part(ph: Seq<char>, p: PartV) -> Seq<Tok>
    decreases p, 1nat,
{
    match p {
        PartV::TokenStream { tokens } => tokens,
        PartV::Group { delimiter, span, parts } => seq![
            Tok::Group { delimiter, stream: unparse_parts(ph, parts), span },
        ],
        PartV::Placeholder { span, prefix } => match prefix {
            None => seq![Tok::Ident { name: ph, span }],
            Some(pre) => seq![
                Tok::Ident { name: pre, span },
                Tok::Punct { ch: '~', joint: false, span },
                Tok::Ident { name: ph, span },
            ],
        },
        PartV::Repeated { parts } => seq![
            Tok::Punct { ch: '#', joint: false, span: 0 },
            Tok::Group { delimiter: Delimiter::Parenthesis, stream: unparse_parts(ph, parts), span: 0 },
            Tok::Punct { ch: '*', joint: false, span: 0 },
        ],
    }
}

/// The tokens pieces were read from, one piece after the other.
pub open spec fn unparse_parts(ph: Seq<char>, ps: Seq<PartV>) -> Seq<Tok>
    decreases ps, 0nat,
{
    if ps.len() == 0 {
        Seq::empty()
    } else {
        unparse_parts(ph, ps.drop_last()) + unparse_part(ph, ps.last())
    }
}

/// Whether token `k` of `ts`, a `*`, closes the group at `g`, preceded by
/// `#`, with only plain tokens between them: neither groups, nor the
/// placeholder, nor another `*`.
pub open spec fn closes_marked_group(ph: Seq<char>, ts: Seq<Tok>, g: int, k: int) -> bool {
    &&& 1 <= g < k < ts.len()
    &&& ts[g] is Group
    &&& is_punct(ts[g - 1], '#')
    &&& is_punct(ts[k], '*')
    &&& forall|m: int|
        g < m < k ==> !(#[trigger] ts[m] is Group) && !is_placeholder(ph, ts[m]) && !is_punct(ts[m], '*')
}

/// Whether every `*` that closes a group marked by `#` follows it at once,
/// the group being in parentheses: each `#( ... )*` is written so.
pub open spec fn marks_well_formed(ph: Seq<char>, ts: Seq<Tok>) -> bool {
    forall|g: int, k: int|
        #[trigger] closes_marked_group(ph, ts, g, k) ==> k == g + 1 && ts[g]->Group_delimiter
            == Delimiter::Parenthesis
}

/// Whether the marks are well formed in `ts` and inside all its groups.
pub open spec fn repetitions_well_formed(ph: Seq<char>, ts: Seq<Tok>) -> bool
    decreases ts, 2nat,
{
    marks_well_formed(ph, ts) && groups_well_formed(ph, ts)
}

/// Whether the marks are well formed inside every group of `ts`.
pub open spec fn groups_well_formed(ph: Seq<char>, ts: Seq<Tok>) -> bool
    decreases ts, 0nat,
{
    ts.len() > 0 ==> groups_well_formed(ph, ts.drop_last()) && tok_well_formed(ph, ts.last())
}

/// Whether the marks are well formed inside a token that is a group.
pub open spec fn tok_well_formed(ph: Seq<char>, t: Tok) -> bool
    decreases t, 1nat,
{
    match t {
        Tok::Group { stream, .. } => repetitions_well_formed(ph, stream),
        _ => true,
    }
}

/// Whether two token sequences read the same as text.
pub open spec fn same_shape(a: Seq<Tok>, b: Seq<Tok>) -> bool {
    &&& a.len() == b.len()
    &&& forall|i: int| #![trigger a[i]] #![trigger b[i]] 0 <= i < a.len() ==> bare(a[i]) == bare(b[i])
}

proof fn lemma_same_shape_bare(a: Seq<Tok>, b: Seq<Tok>)
    requires
        same_shape(a, b),
    ensures
        bare_stream(a) == bare_stream(b),
    decreases a.len(),
{
    if a.len() > 0 {
        assert(same_shape(a.drop_last(), b.drop_last()));
        lemma_same_shape_bare(a.drop_last(), b.drop_last());
        assert(bare(a.last()) == bare(b.last()));
    }
}

proof fn lemma_unparse_push(ph: Seq<char>, ps: Seq<PartV>, p: PartV)
    ensures
        unparse_parts(ph, ps.push(p)) == unparse_parts(ph, ps) + unparse_part(ph, p),
{
    assert(ps.push(p).drop_last() =~= ps);
}

proof fn lemma_unparse_flush(ph: Seq<char>, ps: Seq<PartV>, s: Seq<Tok>)
    ensures
        unparse_parts(ph, flush(ps, s)) == unparse_parts(ph, ps) + s,
{
    if s.len() > 0 {
        lemma_unparse_push(ph, ps, PartV::TokenStream { tokens: s });
    } else {
        assert(unparse_parts(ph, ps) + s =~= unparse_parts(ph, ps));
    }
}

/// Whether the pieces end with a group preceded by plain tokens ending
/// with `#`: a `*` now would close a section to repeat.
pub open spec fn marked_open(parts: Seq<PartV>) -> bool {
    &&& parts.len() > 1
    &&& parts[parts.len() - 1] is Group
    &&& parts[parts.len() - 2] matches PartV::TokenStream { tokens } && tokens.len() > 0 && is_punct(
        tokens[tokens.len() - 1],
        '#',
    )
}

/// What holds of the pieces and pending tokens after reading `toks`.
pub open spec fn scan_round_trip(ph: Seq<char>, toks: Seq<Tok>, parts: Seq<PartV>, stream: Seq<Tok>) -> bool {
    let k = toks.len() as int;
    &&& same_shape(unparse_parts(ph, parts) + stream, toks)
    &&& parts.len() > 0 ==> !(parts.last() is TokenStream)
    &&& stream.len() <= k
    &&& stream == toks.subrange(k - stream.len(), k)
    &&& forall|m: int| 0 <= m < stream.len() ==> !(#[trigger] stream[m] is Group) && !is_placeholder(ph, stream[m])
    &&& marked_open(parts) ==> {
        let g = k - stream.len() - 1;
        &&& 1 <= g
        &&& toks[g] is Group
        &&& parts.last()->Group_delimiter == toks[g]->Group_delimiter
        &&& is_punct(toks[g - 1], '#')
        &&& forall|m: int| 0 <= m < stream.len() ==> !is_punct(#[trigger] stream[m], '*')
    }
}

proof fn lemma_round_trip_paste(ph: Seq<char>, prev: Seq<Tok>, t: Tok, parts: Seq<PartV>, stream: Seq<Tok>)
    requires
        scan_round_trip(ph, prev, parts, stream),
        is_placeholder(ph, t),
        ends_with_paste(stream),
    ensures
        scan_round_trip(
            ph,
            prev.push(t),
            flush(parts, stream.subrange(0, stream.len() - 2)).push(
                PartV::Placeholder {
                    span: span_of(stream[stream.len() - 2]),
                    prefix: Some(stream[stream.len() - 2]->name),
                },
            ),
            Seq::empty(),
        ),
{
    let toks = prev.push(t);
    let k = toks.len() as int;
    let sl = stream.len() as int;
    let u = unparse_parts(ph, parts);
    let prefix = stream[sl - 2];
    let head = stream.subrange(0, sl - 2);
    let p = PartV::Placeholder { span: span_of(prefix), prefix: Some(prefix->name) };
    lemma_unparse_flush(ph, parts, head);
    lemma_unparse_push(ph, flush(parts, head), p);
    let nu = unparse_parts(ph, flush(parts, head).push(p));
    assert(nu =~= u + head + unparse_part(ph, p));
    assert(nu + Seq::<Tok>::empty() =~= nu);
    assert forall|i: int| 0 <= i < nu.len() implies bare(#[trigger] nu[i]) == bare(toks[i]) by {
        if i < u.len() + head.len() {
            assert(nu[i] == (u + stream)[i]);
            assert(toks[i] == prev[i]);
        } else if i == u.len() + head.len() {
            assert((u + stream)[i] == prefix);
            assert(toks[i] == prev[i]);
        } else if i == u.len() + head.len() + 1 {
            assert((u + stream)[i] == stream[sl - 1]);
            assert(toks[i] == prev[i]);
        } else {
            assert(toks[i] == t);
        }
    }
    assert(toks.subrange(k, k) =~= Seq::<Tok>::empty());
}

proof fn lemma_round_trip_placeholder(ph: Seq<char>, prev: Seq<Tok>, t: Tok, parts: Seq<PartV>, stream: Seq<Tok>)
    requires
        scan_round_trip(ph, prev, parts, stream),
        is_placeholder(ph, t),
    ensures
        scan_round_trip(
            ph,
            prev.push(t),
            flush(parts, stream).push(PartV::Placeholder { span: span_of(t), prefix: None }),
            Seq::empty(),
        ),
{
    let toks = prev.push(t);
    let k = toks.len() as int;
    let u = unparse_parts(ph, parts);
    let p = PartV::Placeholder { span: span_of(t), prefix: None };
    lemma_unparse_flush(ph, parts, stream);
    lemma_unparse_push(ph, flush(parts, stream), p);
    let nu = unparse_parts(ph, flush(parts, stream).push(p));
    assert(nu =~= u + stream + unparse_part(ph, p));
    assert(nu + Seq::<Tok>::empty() =~= nu);
    assert forall|i: int| 0 <= i < nu.len() implies bare(#[trigger] nu[i]) == bare(toks[i]) by {
        if i < u.len() + stream.len() {
            assert(nu[i] == (u + stream)[i]);
            assert(toks[i] == prev[i]);
        } else {
            assert(toks[i] == t);
        }
    }
    assert(toks.subrange(k, k) =~= Seq::<Tok>::empty());
}

proof fn lemma_round_trip_group(ph: Seq<char>, prev: Seq<Tok>, t: Tok, parts: Seq<PartV>, stream: Seq<Tok>)
    requires
        scan_round_trip(ph, prev, parts, stream),
        t is Group,
        bare_stream(unparse_parts(ph, from_stream_spec(ph, t->Group_stream))) == bare_stream(t->Group_stream),
    ensures
        scan_round_trip(
            ph,
            prev.push(t),
            flush(parts, stream).push(
                PartV::Group {
                    delimiter: t->Group_delimiter,
                    span: span_of(t),
                    parts: from_stream_spec(ph, t->Group_stream),
                },
            ),
            Seq::empty(),
        ),
{
    let toks = prev.push(t);
    let k = toks.len() as int;
    let sl = stream.len() as int;
    let u = unparse_parts(ph, parts);
    let inner = t->Group_stream;
    let p = PartV::Group {
        delimiter: t->Group_delimiter,
        span: span_of(t),
        parts: from_stream_spec(ph, inner),
    };
    lemma_unparse_flush(ph, parts, stream);
    lemma_unparse_push(ph, flush(parts, stream), p);
    let np = flush(parts, stream).push(p);
    let nu = unparse_parts(ph, np);
    assert(nu =~= u + stream + unparse_part(ph, p));
    assert(nu + Seq::<Tok>::empty() =~= nu);
    assert forall|i: int| 0 <= i < nu.len() implies bare(#[trigger] nu[i]) == bare(toks[i]) by {
        if i < u.len() + stream.len() {
            assert(nu[i] == (u + stream)[i]);
            assert(toks[i] == prev[i]);
        } else {
            assert(toks[i] == t);
        }
    }
    assert(toks.subrange(k, k) =~= Seq::<Tok>::empty());
    if marked_open(np) {
        if stream.len() == 0 {
            assert(flush(parts, stream) == parts);
        }
        assert(np[np.len() - 2] == PartV::TokenStream { tokens: stream });
        assert(stream[sl - 1] == prev[k - 2]);
    }
}

#[verifier::rlimit(40)]
proof fn lemma_round_trip_close(ph: Seq<char>, prev: Seq<Tok>, t: Tok, parts: Seq<PartV>, stream: Seq<Tok>)
    requires
        scan_round_trip(ph, prev, parts, stream),
        marks_well_formed(ph, prev.push(t)),
        !is_placeholder(ph, t),
        closes_repetition(parts, t),
    ensures
        scan_round_trip(
            ph,
            prev.push(t),
            parts.subrange(0, parts.len() - 2).push(
                PartV::TokenStream { tokens: parts[parts.len() - 2]->tokens.drop_last() },
            ).push(PartV::Repeated { parts: parts[parts.len() - 1]->Group_parts }),
            stream,
        ),
{
    let toks = prev.push(t);
    let k = toks.len() as int;
    let sl = stream.len() as int;
    let u = unparse_parts(ph, parts);
    let g = (k - 1) - sl - 1;
    assert forall|m: int| g < m < k - 1 implies !(#[trigger] toks[m] is Group) && !is_placeholder(ph, toks[m])
        && !is_punct(toks[m], '*') by {
        assert(toks[m] == prev[m]);
        assert(stream[m - g - 1] == prev[m]);
    }
    assert(toks[g] == prev[g]);
    assert(toks[g - 1] == prev[g - 1]);
    assert(toks[k - 1] == t);
    assert(closes_marked_group(ph, toks, g, k - 1));
    assert(sl == 0);
    let n = parts.len() as int;
    let prec = parts[n - 2]->tokens;
    let grp = parts[n - 1];
    let base = parts.subrange(0, n - 2);
    assert(parts =~= base.push(parts[n - 2]).push(grp));
    lemma_unparse_push(ph, base, parts[n - 2]);
    lemma_unparse_push(ph, base.push(parts[n - 2]), grp);
    let ts_part = PartV::TokenStream { tokens: prec.drop_last() };
    let rep = PartV::Repeated { parts: grp->Group_parts };
    lemma_unparse_push(ph, base, ts_part);
    lemma_unparse_push(ph, base.push(ts_part), rep);
    let np = base.push(ts_part).push(rep);
    let nu = unparse_parts(ph, np);
    let ub = unparse_parts(ph, base);
    assert(nu =~= ub + prec.drop_last() + unparse_part(ph, rep));
    assert(u =~= ub + prec + unparse_part(ph, grp));
    assert(grp->Group_delimiter == Delimiter::Parenthesis);
    assert(nu + stream =~= nu);
    assert forall|i: int| 0 <= i < nu.len() implies bare(#[trigger] nu[i]) == bare(toks[i]) by {
        if i < ub.len() + prec.len() - 1 {
            assert(nu[i] == (u + stream)[i]);
            assert(toks[i] == prev[i]);
        } else if i == ub.len() + prec.len() - 1 {
            assert((u + stream)[i] == prec[prec.len() - 1]);
            assert(toks[i] == prev[i]);
        } else if i == ub.len() + prec.len() {
            assert((u + stream)[i] == unparse_part(ph, grp)[0]);
            assert(toks[i] == prev[i]);
        } else {
            assert(toks[i] == t);
        }
    }
    assert(stream =~= toks.subrange(k - sl, k));
}

proof fn lemma_round_trip_plain(ph: Seq<char>, prev: Seq<Tok>, t: Tok, parts: Seq<PartV>, stream: Seq<Tok>)
    requires
        scan_round_trip(ph, prev, parts, stream),
        !is_placeholder(ph, t),
        !(t is Group),
        !closes_repetition(parts, t),
    ensures
        scan_round_trip(ph, prev.push(t), parts, stream.push(t)),
{
    let toks = prev.push(t);
    let k = toks.len() as int;
    let u = unparse_parts(ph, parts);
    let ns = stream.push(t);
    assert(u + ns =~= (u + stream).push(t));
    assert forall|i: int| 0 <= i < (u + ns).len() implies bare(#[trigger] (u + ns)[i]) == bare(toks[i]) by {
        if i < k - 1 {
            assert(toks[i] == prev[i]);
        }
    }
    assert(ns =~= toks.subrange(k - ns.len(), k));
}

proof fn lemma_scan_round_trip(ph: Seq<char>, toks: Seq<Tok>)
    requires
        marks_well_formed(ph, toks),
        groups_well_formed(ph, toks),
    ensures
        scan_round_trip(ph, toks, scan(ph, toks).0, scan(ph, toks).1),
    decreases toks, 0nat,
{
    if toks.len() == 0 {
        assert(unparse_parts(ph, Seq::<PartV>::empty()) + Seq::<Tok>::empty() =~= Seq::<Tok>::empty());
        assert(toks.subrange(0, 0) =~= Seq::<Tok>::empty());
    } else {
        let prev = toks.drop_last();
        let t = toks.last();
        assert forall|g: int, j: int| #[trigger] closes_marked_group(ph, prev, g, j) implies j == g + 1
            && prev[g]->Group_delimiter == Delimiter::Parenthesis by {
            assert forall|m: int| g < m < j implies !(#[trigger] toks[m] is Group) && !is_placeholder(ph, toks[m])
                && !is_punct(toks[m], '*') by {
                assert(toks[m] == prev[m]);
            }
            assert(closes_marked_group(ph, toks, g, j));
        }
        lemma_scan_round_trip(ph, prev);
        let (parts, stream) = scan(ph, prev);
        assert(toks =~= prev.push(t));
        if is_placeholder(ph, t) {
            if ends_with_paste(stream) {
                lemma_round_trip_paste(ph, prev, t, parts, stream);
            } else {
                lemma_round_trip_placeholder(ph, prev, t, parts, stream);
            }
        } else if t is Group {
            assert(tok_well_formed(ph, t));
            law_from_stream_round_trip(ph, t->Group_stream);
            lemma_round_trip_group(ph, prev, t, parts, stream);
        } else if closes_repetition(parts, t) {
            lemma_round_trip_close(ph, prev, t, parts, stream);
        } else {
            lemma_round_trip_plain(ph, prev, t, parts, stream);
        }
    }
}

/// Reading a body into pieces loses nothing but spans and spacing: the
/// pieces, written back, read as the body did, provided every section to
/// repeat is written `#( ... )*`.
pub proof fn law_from_stream_round_trip(ph: Seq<char>, toks: Seq<Tok>)
    requires
        repetitions_well_formed(ph, toks),
    ensures
        bare_stream(unparse_parts(ph, from_stream_spec(ph, toks))) == bare_stream(toks),
    decreases toks, 1nat,
{
    lemma_scan_round_trip(ph, toks);
    let (parts, stream) = scan(ph, toks);
    lemma_unparse_flush(ph, parts, stream);
    lemma_same_shape_bare(unparse_parts(ph, parts) + stream, toks);
}

} // verus!
