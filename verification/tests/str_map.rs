use ayaka::str_map::StrMap;

#[test]
fn str_map_insert_get() {
    let mut m = StrMap::new();
    assert!(m.is_empty());
    assert_eq!(m.insert("a".to_string(), 1), None);
    assert_eq!(m.insert("b".to_string(), 2), None);
    assert_eq!(m.insert("a".to_string(), 3), Some(1));
    assert_eq!(m.len(), 2);
    assert_eq!(m.get("a"), Some(&3));
    assert_eq!(m.get("c"), None);
    assert!(m.contains_key("b"));
    let mut keys = m.keys();
    keys.sort();
    assert_eq!(keys, vec!["a".to_string(), "b".to_string()]);
}

#[test]
fn str_map_or_insert_all() {
    let mut m = StrMap::new();
    m.insert("a".to_string(), 1);
    let mut base = StrMap::new();
    base.insert("a".to_string(), 10);
    base.insert("b".to_string(), 20);
    m.or_insert_all(base);
    assert_eq!(m.get("a"), Some(&1));
    assert_eq!(m.get("b"), Some(&20));
    let c = m.clone();
    assert_eq!(c.get("b"), Some(&20));
    assert_eq!(c.len(), 2);
}
