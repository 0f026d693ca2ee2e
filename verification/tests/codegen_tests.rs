use html_template::codegen::{compile, dash_name_exec, is_void, Instr, TemplateError};
use html_template::render::{render_template, Env};
use html_template::token::{Delim, Tok};

fn ident(s: &str) -> Tok {
    Tok::Ident(String::from(s))
}

fn lit(s: &str) -> Tok {
    Tok::LitStr(String::from(s))
}

fn brace(ts: Vec<Tok>) -> Tok {
    Tok::Group(Delim::Brace, ts)
}

fn paren(ts: Vec<Tok>) -> Tok {
    Tok::Group(Delim::Paren, ts)
}

fn render_static(toks: &Vec<Tok>) -> String {
    let instrs = compile(toks).expect("template should compile");
    let env = Env::new();
    render_template(&instrs, &env, 16).expect("template should render").0
}

#[test]
fn void_elements_reject_flat_content_case_insensitively() {
    for tag in ["br", "Br", "BR", "img", "wbr", "INPUT"] {
        let toks = vec![ident(tag), Tok::Colon, lit("x"), Tok::Semi];
        match compile(&toks) {
            Err(TemplateError::Void(ce)) => assert_eq!(ce.void_tag, tag),
            other => panic!("{} should be rejected, got {:?}", tag, other),
        }
    }
}

#[test]
fn void_elements_reject_nested_content() {
    let toks = vec![ident("br"), brace(vec![ident("p"), Tok::Semi])];
    assert!(matches!(compile(&toks), Err(TemplateError::Void(_))));
}

#[test]
fn void_elements_accept_empty_content() {
    for tag in ["br", "Br", "BR", "img", "area", "wbr"] {
        let toks = vec![ident(tag), Tok::Semi];
        assert!(compile(&toks).is_ok(), "{} with `;` should compile", tag);
    }
}

#[test]
fn void_elements_have_no_closing_tag() {
    let toks = vec![ident("br"), Tok::Semi];
    assert_eq!(render_static(&toks), "<br>");
}

#[test]
fn non_void_elements_are_closed() {
    let toks = vec![ident("div"), Tok::Semi];
    assert_eq!(render_static(&toks), "<div></div>");
}

#[test]
fn the_void_check_is_exact() {
    assert!(is_void("br"));
    assert!(is_void("Br"));
    assert!(is_void("BR"));
    assert!(is_void("LiNk"));
    assert!(!is_void("div"));
    assert!(!is_void("brr"));
    assert!(!is_void("b"));
}

#[test]
fn attribute_names_translate_underscores_to_hyphens() {
    assert_eq!(dash_name_exec("data_foo"), "data-foo");
    assert_eq!(dash_name_exec("a_b_c"), "a-b-c");
    assert_eq!(dash_name_exec("plain"), "plain");
}

#[test]
fn flag_attribute_serializes_with_hyphens() {
    // div(data_foo);
    let toks = vec![ident("div"), paren(vec![ident("data_foo")]), Tok::Semi];
    assert_eq!(render_static(&toks), "<div data-foo></div>");
}

#[test]
fn literal_attribute_values_are_escaped_at_compile_time() {
    // div(title = "a<b");
    let toks = vec![
        ident("div"),
        paren(vec![ident("title"), Tok::Assign, lit("a<b")]),
        Tok::Semi,
    ];
    let instrs = compile(&toks).unwrap();
    let mut found = false;
    for i in &instrs {
        if let Instr::Lit(s) = i {
            if s == "a&lt;b" {
                found = true;
            }
        }
    }
    assert!(found, "the literal value should be escaped while compiling");
    assert_eq!(render_static(&toks), "<div title=\"a&lt;b\"></div>");
}

#[test]
fn literal_content_is_escaped_at_compile_time() {
    let toks = vec![ident("p"), Tok::Colon, lit("<ok>"), Tok::Semi];
    let instrs = compile(&toks).unwrap();
    let mut found = false;
    for i in &instrs {
        if let Instr::Lit(s) = i {
            if s == "&lt;ok&gt;" {
                found = true;
            }
        }
    }
    assert!(found, "the literal content should be escaped while compiling");
}

#[test]
fn end_to_end_template_renders_exactly() {
    // div(class = "a") { p: "<ok>" ; br; }
    let toks = vec![
        ident("div"),
        paren(vec![ident("class"), Tok::Assign, lit("a")]),
        brace(vec![
            ident("p"),
            Tok::Colon,
            lit("<ok>"),
            Tok::Semi,
            ident("br"),
            Tok::Semi,
        ]),
    ];
    assert_eq!(render_static(&toks), "<div class=\"a\"><p>&lt;ok&gt;</p><br></div>");
}

#[test]
fn parse_errors_surface_through_compile() {
    let toks = vec![Tok::At, ident("frob")];
    assert!(matches!(compile(&toks), Err(TemplateError::Parse(_))));
}

#[test]
fn adjacent_elements_concatenate_without_separators() {
    // span: "a" ; span: "b" ;
    let toks = vec![
        ident("span"),
        Tok::Colon,
        lit("a"),
        Tok::Semi,
        ident("span"),
        Tok::Colon,
        lit("b"),
        Tok::Semi,
    ];
    assert_eq!(render_static(&toks), "<span>a</span><span>b</span>");
}
