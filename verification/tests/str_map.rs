use erc721::str_map::{same_text, StrMap};

#[test]
fn same_text_compares_contents() {
    assert!(same_text("", ""));
    assert!(same_text("Alice", "Alice"));
    assert!(!same_text("Alice", "Bob"));
    assert!(!same_text("Alice", "Alicf"));
    assert!(!same_text("Alice", "Alic"));
    assert!(!same_text("", "a"));
    assert!(same_text("ζωή", "ζωή"));
    assert!(!same_text("ζωή", "ζωη"));
}

#[test]
fn empty_map_holds_nothing() {
    let map: StrMap<u32> = StrMap::new();
    assert!(!map.contains_key("a"));
    assert_eq!(map.get("a"), None);
}

#[test]
fn insert_sets_and_replaces() {
    let mut map: StrMap<u32> = StrMap::new();
    assert_eq!(map.insert("a".to_string(), 1), None);
    assert_eq!(map.insert("b".to_string(), 2), None);
    assert_eq!(map.get("a"), Some(&1));
    assert_eq!(map.get("b"), Some(&2));
    assert_eq!(map.insert("a".to_string(), 3), Some(1));
    assert_eq!(map.get("a"), Some(&3));
    assert_eq!(map.get("b"), Some(&2));
    assert!(map.contains_key("a"));
    assert!(!map.contains_key("c"));
}

#[test]
fn remove_takes_out_one_key() {
    let mut map: StrMap<u32> = StrMap::new();
    for (key, value) in [("a", 1), ("b", 2), ("c", 3), ("d", 4)] {
        assert_eq!(map.insert(key.to_string(), value), None);
    }
    assert_eq!(map.remove("b"), Some(2));
    assert_eq!(map.remove("b"), None);
    assert_eq!(map.remove("x"), None);
    assert_eq!(map.get("a"), Some(&1));
    assert_eq!(map.get("b"), None);
    assert_eq!(map.get("c"), Some(&3));
    assert_eq!(map.get("d"), Some(&4));
    assert_eq!(map.remove("d"), Some(4));
    assert_eq!(map.remove("a"), Some(1));
    assert_eq!(map.remove("c"), Some(3));
    assert!(!map.contains_key("c"));
    assert_eq!(map.insert("c".to_string(), 5), None);
    assert_eq!(map.get("c"), Some(&5));
}
