use html_template::codegen::compile;
use html_template::render::{render_template, Env, EvalError, Value};
use html_template::token::{Delim, Tok};

fn ident(s: &str) -> Tok {
    Tok::Ident(String::from(s))
}

fn lit(s: &str) -> Tok {
    Tok::LitStr(String::from(s))
}

fn brace(ts: Vec<Tok>) -> Tok {
    Tok::Group(Delim::Brace, ts)
}

fn paren(ts: Vec<Tok>) -> Tok {
    Tok::Group(Delim::Paren, ts)
}

fn bracket(ts: Vec<Tok>) -> Tok {
    Tok::Group(Delim::Bracket, ts)
}

fn render_with(toks: &Vec<Tok>, env: &Env) -> Result<String, EvalError> {
    let instrs = compile(toks).expect("template should compile");
    render_template(&instrs, env, 16).map(|st| st.0)
}

fn text(s: &str) -> Value {
    Value::Text(String::from(s))
}

#[test]
fn iteration_keeps_list_order_with_nothing_in_between() {
    // @for x in [1,2,3] { span: x ; }
    let toks = vec![
        Tok::At,
        ident("for"),
        ident("x"),
        ident("in"),
        bracket(vec![
            Tok::LitInt(1),
            Tok::Comma,
            Tok::LitInt(2),
            Tok::Comma,
            Tok::LitInt(3),
        ]),
        brace(vec![ident("span"), Tok::Colon, ident("x"), Tok::Semi]),
    ];
    let env = Env::new();
    assert_eq!(render_with(&toks, &env).unwrap(), "<span>1</span><span>2</span><span>3</span>");
}

#[test]
fn static_and_dynamic_content_render_identically() {
    // p: "<x>" ;   versus   p: v ;  with v holding the same raw text
    let static_toks = vec![ident("p"), Tok::Colon, lit("<x>"), Tok::Semi];
    let dynamic_toks = vec![ident("p"), Tok::Colon, ident("v"), Tok::Semi];
    let empty = Env::new();
    let mut env = Env::new();
    env.bind(String::from("v"), text("<x>"));
    let a = render_with(&static_toks, &empty).unwrap();
    let b = render_with(&dynamic_toks, &env).unwrap();
    assert_eq!(a, b);
    assert_eq!(a, "<p>&lt;x&gt;</p>");
}

#[test]
fn parenthesized_expressions_render_like_bare_ones() {
    // p: ("<x>") ;
    let toks = vec![
        ident("p"),
        Tok::Colon,
        paren(vec![lit("<x>")]),
        Tok::Semi,
    ];
    let env = Env::new();
    assert_eq!(render_with(&toks, &env).unwrap(), "<p>&lt;x&gt;</p>");
}

#[test]
fn optional_attribute_false_is_absent() {
    let toks = vec![
        ident("input"),
        paren(vec![ident("checked"), Tok::Question, Tok::Assign, ident("b")]),
        Tok::Semi,
    ];
    let mut env = Env::new();
    env.bind(String::from("b"), Value::Bool(false));
    assert_eq!(render_with(&toks, &env).unwrap(), "<input>");
}

#[test]
fn optional_attribute_true_is_bare() {
    let toks = vec![
        ident("input"),
        paren(vec![ident("checked"), Tok::Question, Tok::Assign, ident("b")]),
        Tok::Semi,
    ];
    let mut env = Env::new();
    env.bind(String::from("b"), Value::Bool(true));
    assert_eq!(render_with(&toks, &env).unwrap(), "<input checked>");
}

#[test]
fn optional_attribute_absent_value_is_absent() {
    let toks = vec![
        ident("input"),
        paren(vec![ident("data_v"), Tok::Question, Tok::Assign, ident("o")]),
        Tok::Semi,
    ];
    let mut env = Env::new();
    env.bind(String::from("o"), Value::Maybe(None));
    assert_eq!(render_with(&toks, &env).unwrap(), "<input>");
}

#[test]
fn optional_attribute_present_value_is_escaped() {
    let toks = vec![
        ident("input"),
        paren(vec![ident("data_v"), Tok::Question, Tok::Assign, ident("o")]),
        Tok::Semi,
    ];
    let mut env = Env::new();
    env.bind(String::from("o"), Value::Maybe(Some(Box::new(text("a<b")))));
    assert_eq!(render_with(&toks, &env).unwrap(), "<input data-v=\"a&lt;b\">");
}

#[test]
fn conditionals_pick_the_right_branch() {
    // @if c { span: "y" ; } else { span: "n" ; }
    let toks = vec![
        Tok::At,
        ident("if"),
        ident("c"),
        brace(vec![ident("span"), Tok::Colon, lit("y"), Tok::Semi]),
        ident("else"),
        brace(vec![ident("span"), Tok::Colon, lit("n"), Tok::Semi]),
    ];
    let mut yes = Env::new();
    yes.bind(String::from("c"), Value::Bool(true));
    let mut no = Env::new();
    no.bind(String::from("c"), Value::Bool(false));
    assert_eq!(render_with(&toks, &yes).unwrap(), "<span>y</span>");
    assert_eq!(render_with(&toks, &no).unwrap(), "<span>n</span>");
}

#[test]
fn a_missing_else_branch_appends_nothing() {
    let toks = vec![
        Tok::At,
        ident("if"),
        ident("false"),
        brace(vec![ident("p"), Tok::Semi]),
    ];
    let env = Env::new();
    assert_eq!(render_with(&toks, &env).unwrap(), "");
}

#[test]
fn bindings_scope_over_the_rest_of_the_block() {
    // @let x = "hi" ; span: x ;
    let toks = vec![
        Tok::At,
        ident("let"),
        ident("x"),
        Tok::Assign,
        lit("hi"),
        Tok::Semi,
        ident("span"),
        Tok::Colon,
        ident("x"),
        Tok::Semi,
    ];
    let env = Env::new();
    assert_eq!(render_with(&toks, &env).unwrap(), "<span>hi</span>");
}

#[test]
fn bindings_shadow_earlier_ones() {
    let toks = vec![
        Tok::At,
        ident("let"),
        ident("x"),
        Tok::Assign,
        lit("new"),
        Tok::Semi,
        ident("span"),
        Tok::Colon,
        ident("x"),
        Tok::Semi,
    ];
    let mut env = Env::new();
    env.bind(String::from("x"), text("old"));
    assert_eq!(render_with(&toks, &env).unwrap(), "<span>new</span>");
}

#[test]
fn match_selects_the_first_matching_arm() {
    // @match v { "a" => span: "A" ; _ => span: "B" ; }
    let toks = vec![
        Tok::At,
        ident("match"),
        ident("v"),
        brace(vec![
            lit("a"),
            Tok::FatArrow,
            ident("span"),
            Tok::Colon,
            lit("A"),
            Tok::Semi,
            ident("_"),
            Tok::FatArrow,
            ident("span"),
            Tok::Colon,
            lit("B"),
            Tok::Semi,
        ]),
    ];
    let mut a = Env::new();
    a.bind(String::from("v"), text("a"));
    let mut z = Env::new();
    z.bind(String::from("v"), text("z"));
    assert_eq!(render_with(&toks, &a).unwrap(), "<span>A</span>");
    assert_eq!(render_with(&toks, &z).unwrap(), "<span>B</span>");
}

#[test]
fn match_binders_bind_the_scrutinee() {
    // @match v { x => span: x ; }
    let toks = vec![
        Tok::At,
        ident("match"),
        ident("v"),
        brace(vec![
            ident("x"),
            Tok::FatArrow,
            ident("span"),
            Tok::Colon,
            ident("x"),
            Tok::Semi,
        ]),
    ];
    let mut env = Env::new();
    env.bind(String::from("v"), text("bound"));
    assert_eq!(render_with(&toks, &env).unwrap(), "<span>bound</span>");
}

#[test]
fn guards_fall_through_to_later_arms() {
    // @match v { x if g => span: "G" ; _ => span: "N" ; }
    let toks = vec![
        Tok::At,
        ident("match"),
        ident("v"),
        brace(vec![
            ident("x"),
            ident("if"),
            ident("g"),
            Tok::FatArrow,
            ident("span"),
            Tok::Colon,
            lit("G"),
            Tok::Semi,
            ident("_"),
            Tok::FatArrow,
            ident("span"),
            Tok::Colon,
            lit("N"),
            Tok::Semi,
        ]),
    ];
    let mut on = Env::new();
    on.bind(String::from("v"), text("v"));
    on.bind(String::from("g"), Value::Bool(true));
    let mut off = Env::new();
    off.bind(String::from("v"), text("v"));
    off.bind(String::from("g"), Value::Bool(false));
    assert_eq!(render_with(&toks, &on).unwrap(), "<span>G</span>");
    assert_eq!(render_with(&toks, &off).unwrap(), "<span>N</span>");
}

#[test]
fn while_false_appends_nothing() {
    let toks = vec![
        Tok::At,
        ident("while"),
        ident("false"),
        brace(vec![ident("br"), Tok::Semi]),
    ];
    let env = Env::new();
    assert_eq!(render_with(&toks, &env).unwrap(), "");
}

#[test]
fn while_true_runs_out_of_fuel() {
    let toks = vec![
        Tok::At,
        ident("while"),
        ident("true"),
        brace(vec![ident("br"), Tok::Semi]),
    ];
    let env = Env::new();
    assert_eq!(render_with(&toks, &env).unwrap_err(), EvalError::OutOfFuel);
}

#[test]
fn stubs_abandon_the_path() {
    let toks = vec![Tok::At, ident("unimplemented")];
    let env = Env::new();
    assert_eq!(render_with(&toks, &env).unwrap_err(), EvalError::Aborted);
}

#[test]
fn unbound_names_are_reported() {
    let toks = vec![ident("p"), Tok::Colon, ident("nope"), Tok::Semi];
    let env = Env::new();
    assert_eq!(render_with(&toks, &env).unwrap_err(), EvalError::UnboundName);
}

#[test]
fn loops_need_a_list() {
    let toks = vec![
        Tok::At,
        ident("for"),
        ident("x"),
        ident("in"),
        ident("v"),
        brace(vec![ident("br"), Tok::Semi]),
    ];
    let mut env = Env::new();
    env.bind(String::from("v"), Value::Bool(true));
    assert_eq!(render_with(&toks, &env).unwrap_err(), EvalError::NotAList);
}

#[test]
fn conditions_need_a_boolean() {
    let toks = vec![
        Tok::At,
        ident("if"),
        ident("c"),
        brace(vec![ident("br"), Tok::Semi]),
    ];
    let mut env = Env::new();
    env.bind(String::from("c"), text("yes"));
    assert_eq!(render_with(&toks, &env).unwrap_err(), EvalError::NotABool);
}

#[test]
fn safe_values_pass_through_unescaped() {
    let toks = vec![ident("div"), Tok::Colon, ident("v"), Tok::Semi];
    let mut env = Env::new();
    env.bind(String::from("v"), Value::Safe(String::from("<em>x</em>")));
    assert_eq!(render_with(&toks, &env).unwrap(), "<div><em>x</em></div>");
}

#[test]
fn loops_over_host_lists_render_each_element() {
    let toks = vec![
        Tok::At,
        ident("for"),
        ident("x"),
        ident("in"),
        ident("xs"),
        brace(vec![ident("li"), Tok::Colon, ident("x"), Tok::Semi]),
    ];
    let mut env = Env::new();
    env.bind(
        String::from("xs"),
        Value::List(vec![text("a&b"), text("c")]),
    );
    assert_eq!(render_with(&toks, &env).unwrap(), "<li>a&amp;b</li><li>c</li>");
}

#[test]
fn numbers_render_in_decimal_inside_templates() {
    let toks = vec![ident("span"), Tok::Colon, Tok::LitInt(42), Tok::Semi];
    let env = Env::new();
    assert_eq!(render_with(&toks, &env).unwrap(), "<span>42</span>");
}

#[test]
fn optional_values_render_as_content() {
    let toks = vec![ident("p"), Tok::Colon, ident("o"), Tok::Semi];
    let mut some = Env::new();
    some.bind(String::from("o"), Value::Maybe(Some(Box::new(text("x&y")))));
    let mut none = Env::new();
    none.bind(String::from("o"), Value::Maybe(None));
    assert_eq!(render_with(&toks, &some).unwrap(), "<p>x&amp;y</p>");
    assert_eq!(render_with(&toks, &none).unwrap(), "<p></p>");
}

#[test]
fn optional_attributes_reject_plain_text_values() {
    let toks = vec![
        ident("input"),
        paren(vec![ident("a"), Tok::Question, Tok::Assign, ident("v")]),
        Tok::Semi,
    ];
    let mut env = Env::new();
    env.bind(String::from("v"), text("plain"));
    assert_eq!(render_with(&toks, &env).unwrap_err(), EvalError::NotAnOptional);
}

#[test]
fn else_if_chains_pick_the_first_true_branch() {
    // @if a { span: "1" ; } else if b { span: "2" ; } else { span: "3" ; }
    let toks = vec![
        Tok::At,
        ident("if"),
        ident("a"),
        brace(vec![ident("span"), Tok::Colon, lit("1"), Tok::Semi]),
        ident("else"),
        ident("if"),
        ident("b"),
        brace(vec![ident("span"), Tok::Colon, lit("2"), Tok::Semi]),
        ident("else"),
        brace(vec![ident("span"), Tok::Colon, lit("3"), Tok::Semi]),
    ];
    let mut second = Env::new();
    second.bind(String::from("a"), Value::Bool(false));
    second.bind(String::from("b"), Value::Bool(true));
    let mut third = Env::new();
    third.bind(String::from("a"), Value::Bool(false));
    third.bind(String::from("b"), Value::Bool(false));
    assert_eq!(render_with(&toks, &second).unwrap(), "<span>2</span>");
    assert_eq!(render_with(&toks, &third).unwrap(), "<span>3</span>");
}

#[test]
fn integer_patterns_match_by_value() {
    // @match v { 1 => span: "one" ; _ => span: "other" ; }
    let toks = vec![
        Tok::At,
        ident("match"),
        ident("v"),
        brace(vec![
            Tok::LitInt(1),
            Tok::FatArrow,
            ident("span"),
            Tok::Colon,
            lit("one"),
            Tok::Semi,
            ident("_"),
            Tok::FatArrow,
            ident("span"),
            Tok::Colon,
            lit("other"),
            Tok::Semi,
        ]),
    ];
    let mut one = Env::new();
    one.bind(String::from("v"), Value::Int(1));
    let mut two = Env::new();
    two.bind(String::from("v"), Value::Int(2));
    assert_eq!(render_with(&toks, &one).unwrap(), "<span>one</span>");
    assert_eq!(render_with(&toks, &two).unwrap(), "<span>other</span>");
}

#[test]
fn no_matching_arm_is_an_error() {
    let toks = vec![
        Tok::At,
        ident("match"),
        ident("v"),
        brace(vec![
            lit("a"),
            Tok::FatArrow,
            ident("br"),
            Tok::Semi,
        ]),
    ];
    let mut env = Env::new();
    env.bind(String::from("v"), text("z"));
    assert_eq!(render_with(&toks, &env).unwrap_err(), EvalError::NoArmMatched);
}

#[test]
fn an_empty_list_iterates_zero_times() {
    let toks = vec![
        Tok::At,
        ident("for"),
        ident("x"),
        ident("in"),
        bracket(vec![]),
        brace(vec![ident("br"), Tok::Semi]),
    ];
    let env = Env::new();
    assert_eq!(render_with(&toks, &env).unwrap(), "");
}

#[test]
fn list_literals_tolerate_a_trailing_comma() {
    let toks = vec![
        Tok::At,
        ident("for"),
        ident("x"),
        ident("in"),
        bracket(vec![Tok::LitInt(1), Tok::Comma, Tok::LitInt(2), Tok::Comma]),
        brace(vec![ident("span"), Tok::Colon, ident("x"), Tok::Semi]),
    ];
    let env = Env::new();
    assert_eq!(render_with(&toks, &env).unwrap(), "<span>1</span><span>2</span>");
}
