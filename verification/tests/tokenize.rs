use alfred_github::alfred::tokenize;

#[test]
fn test_tokenize() {
    assert_eq!(
        tokenize("foo/bar"),
        vec!["foo/bar".to_string(), "foo".to_string(), "bar".to_string()]
    );
    assert_eq!(
        tokenize("foo/bar-baz"),
        vec![
            "foo/bar-baz".to_string(),
            "foo".to_string(),
            "bar-baz".to_string(),
            "bar".to_string(),
            "baz".to_string(),
        ]
    );
}

#[test]
fn tokenize_single_word() {
    assert_eq!(tokenize("standalone"), vec!["standalone".to_string()]);
}

#[test]
fn tokenize_keeps_first_seen_order_without_duplicates() {
    assert_eq!(tokenize("a/a"), vec!["a/a".to_string(), "a".to_string()]);
    assert_eq!(
        tokenize("x/x-y_x.y"),
        vec!["x/x-y_x.y".to_string(), "x".to_string(), "x-y_x.y".to_string(), "y".to_string()]
    );
}

#[test]
fn tokenize_skips_empty_parts() {
    assert_eq!(tokenize("a..b"), vec!["a..b".to_string(), "a".to_string(), "b".to_string()]);
    assert_eq!(tokenize("-a-"), vec!["-a-".to_string(), "a".to_string()]);
}

#[test]
fn tokenize_empty_string() {
    assert_eq!(tokenize(""), vec!["".to_string()]);
}
