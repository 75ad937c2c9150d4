use parameter_store_executor::text::{
    ascii_env_name, replace, same_text, to_ascii_upper, underscore_name_separators,
    underscore_separators, upper_env_name,
};

#[test]
fn replace_finds_matches_from_the_left() {
    assert_eq!(replace("aaa", "aa", "b"), "ba");
    assert_eq!(replace("a-b-c", "-", "_"), "a_b_c");
    assert_eq!(replace("abc", "x", "y"), "abc");
    assert_eq!(replace("", "x", "y"), "");
    assert_eq!(replace("xx", "x", ""), "");
}

#[test]
fn separators_become_underscores() {
    assert_eq!(underscore_separators("a-b/c_d.e"), "a_b_c_d.e");
}

#[test]
fn ascii_upper_case_leaves_other_characters() {
    assert_eq!(to_ascii_upper("abz-AZ09é"), "ABZ-AZ09é");
}

#[test]
fn env_names_ascii_and_unicode() {
    assert_eq!(ascii_env_name("user-name/é"), "USER_NAME_é");
    assert_eq!(ascii_env_name("db.host-name"), "DB_HOST_NAME");
    assert_eq!(upper_env_name("user-name/é"), "USER_NAME_É");
}

#[test]
fn env_name_is_stable() {
    let once = ascii_env_name("a-b/c");
    assert_eq!(ascii_env_name(&once), once);
}

#[test]
fn same_text_compares_characters() {
    assert!(same_text("abc", "abc"));
    assert!(!same_text("abc", "abd"));
    assert!(!same_text("abc", "ab"));
}

#[test]
fn name_separators_include_periods() {
    assert_eq!(underscore_name_separators("a.b-c/d_e"), "a_b_c_d_e");
}
