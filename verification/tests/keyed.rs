use codex_copilot::keyed::KeyedMap;

#[test]
fn insert_replaces_and_or_insert_keeps() {
    let mut m: KeyedMap<u32> = KeyedMap::new();
    assert!(m.is_empty());
    m.insert("a".to_string(), 1);
    m.insert("b".to_string(), 2);
    m.insert("a".to_string(), 3);
    assert_eq!(m.len(), 2);
    assert_eq!(m.get("a"), Some(&3));
    m.or_insert("a".to_string(), 9);
    m.or_insert("c".to_string(), 4);
    assert_eq!(m.get("a"), Some(&3));
    assert_eq!(m.get("c"), Some(&4));
    assert!(!m.contains_key("d"));
    assert_eq!(m.len(), 3);
}
