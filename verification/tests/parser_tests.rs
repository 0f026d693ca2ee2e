use html_template::ast::{AttrValue, Content, Entry, Program};
use html_template::parser::{Expected, ParseError};
use html_template::token::{Delim, Tok};

fn ident(s: &str) -> Tok {
    Tok::Ident(String::from(s))
}

fn lit(s: &str) -> Tok {
    Tok::LitStr(String::from(s))
}

fn brace(ts: Vec<Tok>) -> Tok {
    Tok::Group(Delim::Brace, ts)
}

fn paren(ts: Vec<Tok>) -> Tok {
    Tok::Group(Delim::Paren, ts)
}

fn bracket(ts: Vec<Tok>) -> Tok {
    Tok::Group(Delim::Bracket, ts)
}

#[test]
fn empty_element_parses() {
    // div;
    let toks = vec![ident("div"), Tok::Semi];
    let p = Program::parse(&toks).unwrap();
    assert_eq!(p.0.len(), 1);
    match &p.0[0] {
        Entry::Element { tag: Some(t), attrs, content: Content::Empty } => {
            assert_eq!(t, "div");
            assert!(attrs.is_empty());
        }
        other => panic!("unexpected entry: {:?}", other),
    }
}

#[test]
fn flat_content_parses() {
    // p: "x" ;
    let toks = vec![ident("p"), Tok::Colon, lit("x"), Tok::Semi];
    let p = Program::parse(&toks).unwrap();
    match &p.0[0] {
        Entry::Element { content: Content::Flat(e), .. } => {
            assert_eq!(e.0.len(), 1);
            assert!(matches!(&e.0[0], Tok::LitStr(s) if s == "x"));
        }
        other => panic!("unexpected entry: {:?}", other),
    }
}

#[test]
fn nested_content_parses() {
    // div { p; }
    let toks = vec![ident("div"), brace(vec![ident("p"), Tok::Semi])];
    let p = Program::parse(&toks).unwrap();
    match &p.0[0] {
        Entry::Element { content: Content::Nested(inner), .. } => {
            assert_eq!(inner.0.len(), 1);
        }
        other => panic!("unexpected entry: {:?}", other),
    }
}

#[test]
fn attribute_forms_parse() {
    // div(a, b = "x", c ?= "y",);   (trailing comma allowed)
    let toks = vec![
        ident("div"),
        paren(vec![
            ident("a"),
            Tok::Comma,
            ident("b"),
            Tok::Assign,
            lit("x"),
            Tok::Comma,
            ident("c"),
            Tok::Question,
            Tok::Assign,
            lit("y"),
            Tok::Comma,
        ]),
        Tok::Semi,
    ];
    let p = Program::parse(&toks).unwrap();
    match &p.0[0] {
        Entry::Element { attrs, .. } => {
            assert_eq!(attrs.len(), 3);
            assert_eq!(attrs[0].name, "a");
            assert!(matches!(attrs[0].value, AttrValue::Flag));
            assert_eq!(attrs[1].name, "b");
            assert!(matches!(attrs[1].value, AttrValue::Always(_)));
            assert_eq!(attrs[2].name, "c");
            assert!(matches!(attrs[2].value, AttrValue::Optional(_)));
        }
        other => panic!("unexpected entry: {:?}", other),
    }
}

#[test]
fn empty_attribute_list_parses() {
    let toks = vec![ident("div"), paren(vec![]), Tok::Semi];
    let p = Program::parse(&toks).unwrap();
    match &p.0[0] {
        Entry::Element { attrs, .. } => assert!(attrs.is_empty()),
        other => panic!("unexpected entry: {:?}", other),
    }
}

#[test]
fn for_directive_parses() {
    // @for x in xs { span: x ; }
    let toks = vec![
        Tok::At,
        ident("for"),
        ident("x"),
        ident("in"),
        ident("xs"),
        brace(vec![ident("span"), Tok::Colon, ident("x"), Tok::Semi]),
    ];
    let p = Program::parse(&toks).unwrap();
    match &p.0[0] {
        Entry::Iterate { pat, source, body } => {
            assert!(matches!(&pat.0[..], [Tok::Ident(s)] if s == "x"));
            assert!(matches!(&source.0[..], [Tok::Ident(s)] if s == "xs"));
            assert_eq!(body.0.len(), 1);
        }
        other => panic!("unexpected entry: {:?}", other),
    }
}

#[test]
fn if_else_chain_parses() {
    // @if a { p; } else if b { q; } else { r; }
    let toks = vec![
        Tok::At,
        ident("if"),
        ident("a"),
        brace(vec![ident("p"), Tok::Semi]),
        ident("else"),
        ident("if"),
        ident("b"),
        brace(vec![ident("q"), Tok::Semi]),
        ident("else"),
        brace(vec![ident("r"), Tok::Semi]),
    ];
    let p = Program::parse(&toks).unwrap();
    match &p.0[0] {
        Entry::Conditional { else_branch: Some(b), .. } => match &**b {
            Entry::Conditional { else_branch: Some(c), .. } => {
                assert!(matches!(&**c, Entry::Element { tag: None, .. }));
            }
            other => panic!("unexpected else: {:?}", other),
        },
        other => panic!("unexpected entry: {:?}", other),
    }
}

#[test]
fn let_directive_parses() {
    // @let x = "v" ;
    let toks = vec![Tok::At, ident("let"), ident("x"), Tok::Assign, lit("v"), Tok::Semi];
    let p = Program::parse(&toks).unwrap();
    assert!(matches!(&p.0[0], Entry::Binding { .. }));
}

#[test]
fn match_directive_parses() {
    // @match v { "a" => span: "A" ; _ => span: "B" ; }
    let toks = vec![
        Tok::At,
        ident("match"),
        ident("v"),
        brace(vec![
            lit("a"),
            Tok::FatArrow,
            ident("span"),
            Tok::Colon,
            lit("A"),
            Tok::Semi,
            ident("_"),
            Tok::FatArrow,
            ident("span"),
            Tok::Colon,
            lit("B"),
            Tok::Semi,
        ]),
    ];
    let p = Program::parse(&toks).unwrap();
    match &p.0[0] {
        Entry::Match { arms, .. } => {
            assert_eq!(arms.len(), 2);
            assert!(arms[0].guard.is_none());
        }
        other => panic!("unexpected entry: {:?}", other),
    }
}

#[test]
fn match_arm_guard_parses() {
    // @match v { x if c => span: x ; }
    let toks = vec![
        Tok::At,
        ident("match"),
        ident("v"),
        brace(vec![
            ident("x"),
            ident("if"),
            ident("c"),
            Tok::FatArrow,
            ident("span"),
            Tok::Colon,
            ident("x"),
            Tok::Semi,
        ]),
    ];
    let p = Program::parse(&toks).unwrap();
    match &p.0[0] {
        Entry::Match { arms, .. } => {
            assert_eq!(arms.len(), 1);
            assert!(arms[0].guard.is_some());
        }
        other => panic!("unexpected entry: {:?}", other),
    }
}

#[test]
fn while_directive_parses() {
    let toks = vec![Tok::At, ident("while"), ident("c"), brace(vec![ident("br"), Tok::Semi])];
    let p = Program::parse(&toks).unwrap();
    assert!(matches!(&p.0[0], Entry::WhileLoop { .. }));
}

#[test]
fn stub_directives_parse() {
    let toks = vec![Tok::At, ident("unimplemented"), Tok::At, ident("unreachable")];
    let p = Program::parse(&toks).unwrap();
    assert!(matches!(p.0[0], Entry::Unimplemented));
    assert!(matches!(p.0[1], Entry::Unreachable));
}

#[test]
fn entries_after_a_stub_still_parse() {
    // the language does not reject entries textually following a stub
    let toks = vec![Tok::At, ident("unreachable"), ident("p"), Tok::Semi];
    let p = Program::parse(&toks).unwrap();
    assert_eq!(p.0.len(), 2);
}

#[test]
fn anonymous_blocks_parse() {
    // : "x" ; followed by { p; } followed by ;
    let toks = vec![
        Tok::Colon,
        lit("x"),
        Tok::Semi,
        brace(vec![ident("p"), Tok::Semi]),
        Tok::Semi,
    ];
    let p = Program::parse(&toks).unwrap();
    assert_eq!(p.0.len(), 3);
    assert!(matches!(&p.0[0], Entry::Element { tag: None, content: Content::Flat(_), .. }));
    assert!(matches!(&p.0[1], Entry::Element { tag: None, content: Content::Nested(_), .. }));
    assert!(matches!(&p.0[2], Entry::Element { tag: None, content: Content::Empty, .. }));
}

#[test]
fn unknown_keyword_is_rejected() {
    let toks = vec![Tok::At, ident("frob")];
    let e = Program::parse(&toks).unwrap_err();
    assert_eq!(e, ParseError { pos: 1, expected: Expected::UnexpectedKeyword });
}

#[test]
fn marker_at_end_is_rejected() {
    let toks = vec![Tok::At];
    let e = Program::parse(&toks).unwrap_err();
    assert_eq!(e, ParseError { pos: 1, expected: Expected::DirectiveKeyword });
}

#[test]
fn else_must_see_if_or_block() {
    // @if a { } else p;
    let toks = vec![
        Tok::At,
        ident("if"),
        ident("a"),
        brace(vec![]),
        ident("else"),
        ident("p"),
        Tok::Semi,
    ];
    let e = Program::parse(&toks).unwrap_err();
    assert_eq!(e.expected, Expected::ElseBranch);
    assert_eq!(e.pos, 5);
}

#[test]
fn missing_content_is_rejected() {
    let toks = vec![ident("div")];
    let e = Program::parse(&toks).unwrap_err();
    assert_eq!(e.expected, Expected::ContentStart);
}

#[test]
fn flat_content_needs_a_semicolon() {
    let toks = vec![ident("p"), Tok::Colon, lit("x")];
    let e = Program::parse(&toks).unwrap_err();
    assert_eq!(e.expected, Expected::SemiTok);
}

#[test]
fn empty_flat_expression_is_rejected() {
    let toks = vec![ident("p"), Tok::Colon, Tok::Semi];
    let e = Program::parse(&toks).unwrap_err();
    assert_eq!(e.expected, Expected::ExprTokens);
}

#[test]
fn loop_head_stops_before_the_body_brace() {
    // @for x in ys { : x ; }  — the brace group is the body, not part of
    // the source expression
    let toks = vec![
        Tok::At,
        ident("for"),
        ident("x"),
        ident("in"),
        ident("ys"),
        brace(vec![Tok::Colon, ident("x"), Tok::Semi]),
    ];
    let p = Program::parse(&toks).unwrap();
    match &p.0[0] {
        Entry::Iterate { source, .. } => assert_eq!(source.0.len(), 1),
        other => panic!("unexpected entry: {:?}", other),
    }
}

#[test]
fn brackets_stay_inside_expressions() {
    // @for x in [1, 2] { br; }
    let toks = vec![
        Tok::At,
        ident("for"),
        ident("x"),
        ident("in"),
        bracket(vec![Tok::LitInt(1), Tok::Comma, Tok::LitInt(2)]),
        brace(vec![ident("br"), Tok::Semi]),
    ];
    let p = Program::parse(&toks).unwrap();
    match &p.0[0] {
        Entry::Iterate { source, .. } => {
            assert!(matches!(&source.0[..], [Tok::Group(Delim::Bracket, _)]));
        }
        other => panic!("unexpected entry: {:?}", other),
    }
}

#[test]
fn attribute_needs_expression_after_assign() {
    let toks = vec![ident("div"), paren(vec![ident("a"), Tok::Assign]), Tok::Semi];
    let e = Program::parse(&toks).unwrap_err();
    assert_eq!(e.expected, Expected::ExprTokens);
}

#[test]
fn optional_attribute_needs_assign_after_question() {
    let toks = vec![ident("div"), paren(vec![ident("a"), Tok::Question, lit("x")]), Tok::Semi];
    let e = Program::parse(&toks).unwrap_err();
    assert_eq!(e.expected, Expected::AssignTok);
}

#[test]
fn attributes_are_separated_by_commas() {
    let toks = vec![ident("div"), paren(vec![ident("a"), ident("b")]), Tok::Semi];
    let e = Program::parse(&toks).unwrap_err();
    assert_eq!(e.expected, Expected::CommaTok);
    assert_eq!(e.pos, 1);
}

#[test]
fn keywords_can_be_tags() {
    // without a directive marker, an identifier is a tag even if it spells
    // a keyword
    let toks = vec![ident("for"), Tok::Semi];
    let p = Program::parse(&toks).unwrap();
    assert!(matches!(&p.0[0], Entry::Element { tag: Some(t), .. } if t == "for"));
}
