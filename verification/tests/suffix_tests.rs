use html_template::suffix::{
    opt_suffix_split, split_last_dot, suffix_split, OptSuffix, Suffix, SuffixFromParamError,
};

#[test]
fn split_takes_the_last_dot() {
    assert_eq!(split_last_dot("a.b.c"), Some((String::from("a.b"), String::from("c"))));
    assert_eq!(split_last_dot("report.pdf"), Some((String::from("report"), String::from("pdf"))));
}

#[test]
fn split_handles_edge_positions() {
    assert_eq!(split_last_dot("a."), Some((String::from("a"), String::from(""))));
    assert_eq!(split_last_dot(".b"), Some((String::from(""), String::from("b"))));
    assert_eq!(split_last_dot("."), Some((String::from(""), String::from(""))));
}

#[test]
fn split_without_a_dot_finds_nothing() {
    assert_eq!(split_last_dot("abc"), None);
    assert_eq!(split_last_dot(""), None);
}

#[test]
fn suffix_split_requires_a_dot() {
    let ok: Result<_, SuffixFromParamError<()>> = suffix_split("a.b");
    assert_eq!(ok.unwrap(), (String::from("a"), String::from("b")));
    let err: Result<(String, String), SuffixFromParamError<()>> = suffix_split("nodot");
    assert!(matches!(err, Err(SuffixFromParamError::Split)));
}

#[test]
fn opt_suffix_split_tolerates_a_missing_dot() {
    assert_eq!(opt_suffix_split("a.b"), (String::from("a"), Some(String::from("b"))));
    assert_eq!(opt_suffix_split("nodot"), (String::from("nodot"), None));
}

#[test]
fn suffix_displays_as_prefix_dot_suffix() {
    let s = Suffix(String::from("a.b"), String::from("c"));
    assert_eq!(s.param_text(), "a.b.c");
}

#[test]
fn opt_suffix_displays_its_optional_suffix() {
    let with = OptSuffix(String::from("a"), Some(String::from("b")));
    let without = OptSuffix(String::from("a"), None);
    assert_eq!(with.param_text(), "a.b");
    assert_eq!(without.param_text(), "a");
}

#[test]
fn splitting_and_displaying_round_trip() {
    let (p, s) = split_last_dot("archive.tar.gz").unwrap();
    assert_eq!(Suffix(p, s).param_text(), "archive.tar.gz");
}
