use parameter_store_executor::params::{parameters_from_pages, transform};

#[test]
fn to_upper() {
    assert_eq!(transform("/something", "/"), "SOMETHING");
}

#[test]
fn to_snake() {
    assert_eq!(transform("/a-value", "/"), "A_VALUE");
}

#[test]
fn flattens() {
    assert_eq!(transform("/a/path/to/a/value", "/"), "A_PATH_TO_A_VALUE");
}

#[test]
fn transform_keeps_names_outside_the_prefix() {
    assert_eq!(transform("other/name", "/app/"), "OTHER_NAME");
}

#[test]
fn transform_removes_the_prefix_once() {
    assert_eq!(transform("/app/app/key", "/app"), "_APP_KEY");
}

#[test]
fn transform_uses_the_unicode_upper_case_mapping() {
    assert_eq!(transform("/straße", "/"), "STRASSE");
}

#[test]
fn pages_become_parameters_in_order() {
    let pages = vec![
        vec![("/a".to_string(), "1".to_string())],
        vec![("/b".to_string(), "2".to_string()), ("/c".to_string(), "3".to_string())],
    ];
    let params = parameters_from_pages(pages);
    let got: Vec<(&str, &str)> = params.iter().map(|p| (p.name(), p.value())).collect();
    assert_eq!(got, vec![("/a", "1"), ("/b", "2"), ("/c", "3")]);
}
