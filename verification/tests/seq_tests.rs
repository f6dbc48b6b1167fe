use macro_workshop::seq::{int_from_answer, parse_seq_header, seq_from_header, seq_header_from, SeqPart};
use macro_workshop::tokens::{copy_tree, Delimiter, MacroError, TokenTree};
use proc_macro2::{Spacing, TokenStream};

/// The tokens of `src`, each span numbered from 1 on in reading order.
fn tokens(src: &str) -> Vec<TokenTree> {
    let ts: TokenStream = src.parse().unwrap();
    let mut next = 1;
    convert(ts, &mut next)
}

fn convert(ts: TokenStream, next: &mut usize) -> Vec<TokenTree> {
    let mut out = Vec::new();
    for tt in ts {
        let span = *next;
        *next += 1;
        out.push(match tt {
            proc_macro2::TokenTree::Group(g) => {
                let delimiter = match g.delimiter() {
                    proc_macro2::Delimiter::Parenthesis => Delimiter::Parenthesis,
                    proc_macro2::Delimiter::Brace => Delimiter::Brace,
                    proc_macro2::Delimiter::Bracket => Delimiter::Bracket,
                    proc_macro2::Delimiter::None => Delimiter::Invisible,
                };
                TokenTree::Group { delimiter, stream: convert(g.stream(), next), span }
            }
            proc_macro2::TokenTree::Ident(i) => TokenTree::Ident { name: i.to_string().chars().collect(), span },
            proc_macro2::TokenTree::Punct(p) => {
                TokenTree::Punct { ch: p.as_char(), joint: p.spacing() == Spacing::Joint, span }
            }
            proc_macro2::TokenTree::Literal(l) => {
                TokenTree::Literal { text: l.to_string().chars().collect(), span }
            }
        });
    }
    out
}

/// The tokens as text, one space between tokens, spans left out.
fn shape(toks: &[TokenTree]) -> String {
    let parts: Vec<String> = toks
        .iter()
        .map(|t| match t {
            TokenTree::Group { delimiter, stream, .. } => {
                let (open, close) = match delimiter {
                    Delimiter::Parenthesis => ("(", ")"),
                    Delimiter::Brace => ("{", "}"),
                    Delimiter::Bracket => ("[", "]"),
                    Delimiter::Invisible => ("<<", ">>"),
                };
                format!("{} {} {}", open, shape(stream), close)
            }
            TokenTree::Ident { name, .. } => name.iter().collect(),
            TokenTree::Punct { ch, .. } => ch.to_string(),
            TokenTree::Literal { text, .. } => text.iter().collect(),
        })
        .collect();
    parts.join(" ")
}

fn expand(src: &str) -> String {
    match macro_workshop::seq::seq(&tokens(src)).unwrap() {
        Ok(t) => shape(&t),
        Err(e) => panic!("unexpected error: {}", e.message.iter().collect::<String>()),
    }
}

fn expected(src: &str) -> String {
    shape(&tokens(src))
}

fn error(src: &str) -> (usize, String) {
    match macro_workshop::seq::seq(&tokens(src)).unwrap() {
        Err(MacroError { span, message }) => (span, message.iter().collect()),
        Ok(_) => panic!("expected an error"),
    }
}

#[test]
fn empty_body() {
    assert_eq!(expand("N in 0..8 {}"), "");
}

#[test]
fn body_repeated_for_each_number() {
    assert_eq!(
        expand("N in 0..4 { compile_error!(concat!(\"error number \", stringify!(N))); }"),
        expected(
            "compile_error!(concat!(\"error number \", stringify!(0)));
             compile_error!(concat!(\"error number \", stringify!(1)));
             compile_error!(concat!(\"error number \", stringify!(2)));
             compile_error!(concat!(\"error number \", stringify!(3)));"
        )
    );
}

#[test]
fn pasted_identifiers() {
    assert_eq!(
        expand("N in 1..4 { fn f~N () -> u64 { N * 2 } }"),
        expected("fn f1 () -> u64 { 1 * 2 } fn f2 () -> u64 { 2 * 2 } fn f3 () -> u64 { 3 * 2 }")
    );
}

#[test]
fn repeated_section_only() {
    assert_eq!(
        expand("N in 0..3 { enum Interrupt { #( Irq~N, )* } }"),
        expected("enum Interrupt { Irq0, Irq1, Irq2, }")
    );
}

#[test]
fn inclusive_range() {
    assert_eq!(expand("N in 16..=18 { N }"), "16 17 18");
}

#[test]
fn reversed_range_is_empty() {
    assert_eq!(expand("N in 5..2 { N }"), "");
}

#[test]
fn raw_prefix_is_pasted_without_r_hash() {
    assert_eq!(expand("N in 0..2 { r#type~N }"), "type0 type1");
}

#[test]
fn placeholder_outside_repeated_section() {
    assert_eq!(
        expand("N in 0..2 { N #( x )* }"),
        expected("compile_error!(\"Placeholder outside of repeated section\") x x")
    );
}

#[test]
fn nested_repeated_section() {
    assert_eq!(
        expand("N in 0..1 { #( #( x )* )* }"),
        expected("compile_error!(\"Repeat inside repeat is not supported\")")
    );
}

#[test]
fn tokens_outside_repeated_section_are_kept_once() {
    assert_eq!(
        expand("N in 0..2 { static PROCS: [Proc; 2] = [ #( Proc::new(N), )* ]; }"),
        expected("static PROCS: [Proc; 2] = [ Proc::new(0), Proc::new(1), ];")
    );
}

#[test]
fn invisible_groups_are_flattened() {
    let mut input = tokens("N in 0..2 { N }");
    let lit = input.remove(2);
    input.insert(2, TokenTree::Group { delimiter: Delimiter::Invisible, stream: vec![lit], span: 99 });
    assert_eq!(shape(&macro_workshop::seq::seq(&input).unwrap().ok().unwrap()), "0 1");
}

#[test]
fn header_must_start_with_identifier() {
    assert_eq!(error("0 in 0..2 {}"), (1, "expected identifier".to_string()));
}

#[test]
fn keyword_placeholder() {
    assert_eq!(error("fn in 0..2 {}"), (1, "expected identifier, found keyword `fn`".to_string()));
}

#[test]
fn missing_in() {
    assert_eq!(error("N on 0..2 {}"), (2, "expected `in`".to_string()));
}

#[test]
fn missing_range() {
    assert_eq!(error("N in 0 2 {}").1, "expected `..`");
}

#[test]
fn missing_body() {
    assert_eq!(error("N in 0..2").1, "unexpected end of input, expected curly braces");
    assert_eq!(error("N in 0..2 ( )").1, "expected curly braces");
}

#[test]
fn trailing_tokens() {
    assert_eq!(error("N in 0..2 {} x"), (8, "unexpected token".to_string()));
}

#[test]
fn range_bounds_must_be_integers() {
    assert!(macro_workshop::seq::seq(&tokens("N in a..2 {}")).unwrap().is_err());
    assert!(macro_workshop::seq::seq(&tokens("N in 0..\"x\" {}")).unwrap().is_err());
}

#[test]
fn header_parts() {
    let h = parse_seq_header(&tokens("N in 3..=7 { N }")).ok().unwrap();
    assert_eq!(h.placeholder.iter().collect::<String>(), "N");
    assert_eq!((h.start, h.end, h.inclusive), (3, 7, true));
    assert_eq!(shape(&h.body), "N");
}

#[test]
fn exclusive_range_ending_at_zero_is_not_expanded() {
    assert!(macro_workshop::seq::seq(&tokens("N in 0..0 { N }")).is_none());
    assert!(matches!(macro_workshop::seq::seq(&tokens("N in 0..=0 { N }")), Some(Ok(_))));
    assert!(matches!(macro_workshop::seq::seq(&tokens("x")), Some(Err(_))));
}

#[test]
fn repeat_law_on_values() {
    let once = expand("N in 4..=4 { a N b }");
    let many = expand("N in 4..7 { a N b }");
    assert_eq!(once, "a 4 b");
    assert_eq!(many, "a 4 b a 5 b a 6 b");
}

#[test]
fn body_without_placeholder_is_copied() {
    assert_eq!(expand("N in 0..3 { x }"), "x x x");
}

#[test]
fn header_with_refused_placeholder() {
    match seq_header_from(&tokens("N in 0..2 { N }"), false) {
        Err(MacroError { span, message }) => {
            assert_eq!(span, 1);
            assert_eq!(message.iter().collect::<String>(), "expected identifier, found keyword `N`");
        }
        Ok(_) => panic!("expected an error"),
    }
    let h = seq_header_from(&tokens("N in 0..2 { N }"), true).ok().unwrap();
    assert_eq!((h.start, h.end, h.inclusive), (0, 2, false));
}

fn unparse(ph: &str, parts: &[SeqPart]) -> Vec<TokenTree> {
    let mut out = Vec::new();
    for p in parts {
        match p {
            SeqPart::TokenStream { tokens } => out.extend(tokens.iter().map(copy_tree)),
            SeqPart::Group { delimiter, span, parts } => {
                out.push(TokenTree::Group { delimiter: *delimiter, stream: unparse(ph, parts), span: *span })
            }
            SeqPart::Placeholder { span, prefix } => {
                if let Some(pre) = prefix {
                    out.push(TokenTree::Ident { name: pre.clone(), span: *span });
                    out.push(TokenTree::Punct { ch: '~', joint: false, span: *span });
                }
                out.push(TokenTree::Ident { name: ph.chars().collect(), span: *span });
            }
            SeqPart::Repeated { parts } => {
                out.push(TokenTree::Punct { ch: '#', joint: false, span: 0 });
                out.push(TokenTree::Group { delimiter: Delimiter::Parenthesis, stream: unparse(ph, parts), span: 0 });
                out.push(TokenTree::Punct { ch: '*', joint: false, span: 0 });
            }
        }
    }
    out
}

#[test]
fn pieces_read_back_as_the_body() {
    let body = tokens("static A: [u8; 2] = [ #( f~N(N), )* ]; fn g() { N }");
    let parts = SeqPart::from_stream(&"N".chars().collect(), &body);
    assert_eq!(shape(&unparse("N", &parts)), shape(&body));
    assert!(matches!(parts.last(), Some(SeqPart::Group { .. })));
}

#[test]
fn plain_literals_with_underscores() {
    assert_eq!(expand("N in 1_0..1_2 { N }"), "10 11");
}

#[test]
fn literal_too_large_for_usize() {
    let (span, _) = error("N in 0..99999999999999999999999999 {}");
    assert_eq!(span, 6);
}

#[test]
fn header_expands_from_its_parts() {
    let h = parse_seq_header(&tokens("N in 2..=3 { x N }")).ok().unwrap();
    assert_eq!(shape(&seq_from_header(&h)), "x 2 x 3");
}

#[test]
fn integer_from_each_answer() {
    let f = tokens("7 x");
    assert_eq!(int_from_answer(&f, 0, 1, Some(Ok(7))).ok().unwrap(), (7, 1));
    match int_from_answer(&f, 0, 1, Some(Err("too big".chars().collect()))) {
        Err(e) => assert_eq!((e.span, e.message.iter().collect::<String>()), (1, "too big".to_string())),
        Ok(_) => panic!("expected an error"),
    }
    match int_from_answer(&f, 1, 2, None) {
        Err(e) => assert_eq!((e.span, e.message.iter().collect::<String>()), (2, "expected integer literal".to_string())),
        Ok(_) => panic!("expected an error"),
    }
}
