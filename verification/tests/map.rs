use etopa::map::StrMap;

#[test]
fn insert_get_remove() {
    let mut m: StrMap<String> = StrMap::new();
    assert_eq!(m.len(), 0);
    assert!(m.insert("b".to_string(), "2".to_string()).is_none());
    assert!(m.insert("a".to_string(), "1".to_string()).is_none());
    assert_eq!(m.insert("b".to_string(), "3".to_string()), Some("2".to_string()));
    assert_eq!(m.len(), 2);
    assert_eq!(m.get("b").unwrap(), "3");
    assert!(m.contains_key("a"));
    assert!(!m.contains_key("c"));
    assert_eq!(m.entry_at(0).0, "a");
    assert_eq!(m.entry_at(1).0, "b");
    assert_eq!(m.remove("a"), Some("1".to_string()));
    assert_eq!(m.remove("a"), None);
    assert_eq!(m.len(), 1);
    m.clear();
    assert_eq!(m.len(), 0);
}

#[test]
fn keys_stay_sorted() {
    let mut m: StrMap<u32> = StrMap::new();
    for (i, k) in ["delta", "alpha", "charlie", "bravo", "Zulu", "alpha2", ""].iter().enumerate() {
        m.insert(k.to_string(), i as u32);
    }
    let keys: Vec<String> = (0..m.len()).map(|i| m.entry_at(i).0.clone()).collect();
    let mut sorted = keys.clone();
    sorted.sort();
    assert_eq!(keys, sorted);
    assert_eq!(keys.len(), 7);
}
