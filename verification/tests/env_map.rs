use parameter_store_executor::env_map::{flatten_pages, EnvMap};

#[test]
fn insert_then_get() {
    let mut m = EnvMap::new();
    assert_eq!(m.get("A"), None);
    m.insert("A".to_string(), "1".to_string());
    m.insert("B".to_string(), "2".to_string());
    m.insert("A".to_string(), "3".to_string());
    assert_eq!(m.get("A").map(|s| s.as_str()), Some("3"));
    assert_eq!(m.get("B").map(|s| s.as_str()), Some("2"));
    assert_eq!(m.get("C"), None);
    assert_eq!(
        m.into_entries(),
        vec![("A".to_string(), "3".to_string()), ("B".to_string(), "2".to_string())]
    );
}

#[test]
fn duplicate_is_independent() {
    let mut m = EnvMap::new();
    m.insert("A".to_string(), "1".to_string());
    let copy = m.duplicate();
    m.insert("A".to_string(), "2".to_string());
    assert_eq!(copy.get("A").map(|s| s.as_str()), Some("1"));
    assert_eq!(m.get("A").map(|s| s.as_str()), Some("2"));
}

#[test]
fn pages_flatten_in_order() {
    let pages = vec![
        vec![("a".to_string(), "1".to_string())],
        vec![],
        vec![("b".to_string(), "2".to_string()), ("a".to_string(), "3".to_string())],
    ];
    assert_eq!(
        flatten_pages(&pages),
        vec![
            ("a".to_string(), "1".to_string()),
            ("b".to_string(), "2".to_string()),
            ("a".to_string(), "3".to_string()),
        ]
    );
}
