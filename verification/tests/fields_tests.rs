use grok_lines::fields::FieldMap;
use grok_lines::text::str_cmp;

#[test]
fn insert_keeps_keys_sorted_and_unique() {
    let mut m = FieldMap::new();
    m.insert("m".to_string(), "1".to_string());
    m.insert("a".to_string(), "2".to_string());
    m.insert("z".to_string(), "3".to_string());
    m.insert("a".to_string(), "4".to_string());
    assert_eq!(m.len(), 3);
    assert_eq!(m.key_at(0), "a");
    assert_eq!(m.key_at(1), "m");
    assert_eq!(m.key_at(2), "z");
    assert_eq!(m.value_at(0), "4");
    assert_eq!(m.get("a"), Some(&"4".to_string()));
    assert_eq!(m.get("missing"), None);
}

#[test]
fn from_pairs_last_duplicate_wins() {
    let pairs = vec![
        ("b".to_string(), "1".to_string()),
        ("a".to_string(), "2".to_string()),
        ("b".to_string(), "3".to_string()),
    ];
    let m = FieldMap::from_pairs(&pairs);
    assert_eq!(m.len(), 2);
    assert_eq!(m.get("b"), Some(&"3".to_string()));
    assert_eq!(m.get("a"), Some(&"2".to_string()));
}

#[test]
fn keys_are_fresh_sorted_copies() {
    let mut m = FieldMap::new();
    m.insert("beta".to_string(), "x".to_string());
    m.insert("alpha".to_string(), "y".to_string());
    let keys = m.keys();
    assert_eq!(keys, vec!["alpha".to_string(), "beta".to_string()]);
}

#[test]
fn string_comparison_is_lexicographic() {
    assert_eq!(str_cmp("abc", "abd"), 0);
    assert_eq!(str_cmp("abc", "abc"), 1);
    assert_eq!(str_cmp("abd", "abc"), 2);
    assert_eq!(str_cmp("", "a"), 0);
    assert_eq!(str_cmp("ab", "a"), 2);
    assert_eq!(str_cmp("A", "a"), 0);
}
