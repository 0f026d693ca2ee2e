use html_template::html::{Doctype, OptionalAttr, SafeText, ToHtml};

#[test]
fn strings_render_escaped() {
    let s = String::from("<b>&\"'");
    assert_eq!(s.to_html().0, "&lt;b&gt;&amp;&quot;'");
}

#[test]
fn safe_text_renders_verbatim() {
    let s = SafeText(String::from("<b>already safe</b>"));
    assert_eq!(s.to_html().0, "<b>already safe</b>");
}

#[test]
fn numbers_render_in_decimal() {
    assert_eq!(1234u64.to_html().0, "1234");
    assert_eq!(0u64.to_html().0, "0");
}

#[test]
fn options_render_their_value_or_nothing() {
    let some: Option<String> = Some(String::from("a<b"));
    let none: Option<String> = None;
    assert_eq!(some.to_html().0, "a&lt;b");
    assert_eq!(none.to_html().0, "");
}

#[test]
fn doctype_renders_itself() {
    assert_eq!(Doctype.to_html().0, "<!DOCTYPE html>");
}

#[test]
fn push_html_appends_to_a_shared_buffer() {
    let mut buf = SafeText(String::new());
    Doctype.push_html(&mut buf);
    String::from("<a>").push_html(&mut buf);
    SafeText(String::from("<hr>")).push_html(&mut buf);
    7u64.push_html(&mut buf);
    assert_eq!(buf.0, "<!DOCTYPE html>&lt;a&gt;<hr>7");
}

#[test]
fn booleans_resolve_three_ways() {
    assert!(false.attr_value().is_none());
    assert!(matches!(true.attr_value(), Some(None)));
}

#[test]
fn options_resolve_three_ways() {
    let none: Option<String> = None;
    assert!(none.attr_value().is_none());
    let some: Option<String> = Some(String::from("v"));
    match some.attr_value() {
        Some(Some(v)) => assert_eq!(v, "v"),
        other => panic!("unexpected resolution: {:?}", other),
    }
}
