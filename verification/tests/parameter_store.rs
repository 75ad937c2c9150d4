use parameter_store_executor::parameter_store::{
    parameters_from_listing, strip_prefix, unescape,
};

#[test]
fn strips_prefix() {
    assert_eq!(strip_prefix("/a/path/to/a/value", "/a/path/to"), "a/value");
    assert_eq!(strip_prefix("/a/b", "/a/b"), "");
}

#[test]
fn strip_prefix_keeps_names_outside_the_path() {
    assert_eq!(strip_prefix("/other/value", "/a/path"), "/other/value");
}

#[test]
fn strip_prefix_removes_every_following_slash() {
    assert_eq!(strip_prefix("/a//b", "/a"), "b");
    assert_eq!(strip_prefix("/one/test", "/"), "one/test");
}

#[test]
fn strip_prefix_with_empty_path_removes_leading_slashes() {
    assert_eq!(strip_prefix("//x/y", ""), "x/y");
}

#[test]
fn strip_prefix_matches_characters_not_components() {
    assert_eq!(strip_prefix("/ab/c", "/a"), "b/c");
}

#[test]
fn unescape_removes_backslashes() {
    assert_eq!(unescape("a \\\"quoted\\\" word"), "a \"quoted\" word");
    assert_eq!(unescape("back\\\\slash"), "backslash");
    assert_eq!(unescape("plain"), "plain");
    assert_eq!(unescape(""), "");
}

#[test]
fn listing_error_is_unescaped() {
    let res = parameters_from_listing("/p", Err("service error: \\\"denied\\\"".to_string()));
    assert_eq!(res.unwrap_err(), "service error: \"denied\"");
}

#[test]
fn listing_pages_are_flattened_and_made_relative() {
    let pages = vec![
        vec![
            ("/app/db/user".to_string(), "admin".to_string()),
            ("/app/db/password".to_string(), "secret".to_string()),
        ],
        vec![],
        vec![("/app/port".to_string(), "8080".to_string())],
    ];
    let params = parameters_from_listing("/app", Ok(pages)).unwrap();
    let got: Vec<(String, String)> = params.into_iter().map(|p| (p.name, p.value)).collect();
    assert_eq!(
        got,
        vec![
            ("db/user".to_string(), "admin".to_string()),
            ("db/password".to_string(), "secret".to_string()),
            ("port".to_string(), "8080".to_string()),
        ]
    );
}

#[test]
fn empty_listing_has_no_parameters() {
    let params = parameters_from_listing("/app", Ok(vec![])).unwrap();
    assert!(params.is_empty());
}
