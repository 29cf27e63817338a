use line_tools::quotes::remove_quotes;

#[test]
fn test_remove_quotes() {
    assert_eq!(remove_quotes(r#""hello""#), "hello");
    assert_eq!(remove_quotes(r#""test"#), r#""test"#);
    assert_eq!(remove_quotes(r#"test""#), r#"test""#);
    assert_eq!(remove_quotes("test"), "test");
    assert_eq!(remove_quotes(r#""""#), "");
    assert_eq!(remove_quotes(r#""a""#), "a");
}

#[test]
fn remove_quotes_short_and_non_ascii() {
    assert_eq!(remove_quotes(""), "");
    assert_eq!(remove_quotes("\""), "\"");
    assert_eq!(remove_quotes("\"héllo\""), "héllo");
    assert_eq!(remove_quotes("\"\"x\"\""), "\"x\"");
    assert_eq!(remove_quotes("'a'"), "'a'");
}
