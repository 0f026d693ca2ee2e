use html_template::escape::{escape, escape_into};
use html_template::strutil::u64_to_string;

#[test]
fn escape_replaces_exactly_the_four_characters() {
    assert_eq!(escape("<b>&\"'"), "&lt;b&gt;&amp;&quot;'");
}

#[test]
fn escape_leaves_apostrophes_alone() {
    assert_eq!(escape("it's a 'quote'"), "it's a 'quote'");
}

#[test]
fn escape_leaves_plain_text_unchanged() {
    assert_eq!(escape("hello, world! 123 _-=/"), "hello, world! 123 _-=/");
}

#[test]
fn escape_keeps_multibyte_text_intact() {
    assert_eq!(escape("héllo 中文 🚀"), "héllo 中文 🚀");
    assert_eq!(escape("<中>&'é"), "&lt;中&gt;&amp;'é");
}

#[test]
fn escape_of_empty_text_is_empty() {
    assert_eq!(escape(""), "");
}

#[test]
fn escape_into_appends_to_the_buffer() {
    let mut buf = String::from("<p>");
    escape_into(&mut buf, "a<b");
    assert_eq!(buf, "<p>a&lt;b");
}

#[test]
fn decimal_rendering_is_exact() {
    assert_eq!(u64_to_string(0), "0");
    assert_eq!(u64_to_string(7), "7");
    assert_eq!(u64_to_string(42), "42");
    assert_eq!(u64_to_string(1000), "1000");
    assert_eq!(u64_to_string(u64::MAX), "18446744073709551615");
}
