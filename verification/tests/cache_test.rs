use marko::cache::{PathMap, PathSet};

#[test]
fn map_insert_get_remove() {
    let mut m: PathMap<u32> = PathMap::new();
    assert!(!m.contains_key("a"));
    assert_eq!(m.get("a"), None);
    m.insert("a".to_string(), 1);
    m.insert("b".to_string(), 2);
    assert_eq!(m.get("a"), Some(&1));
    assert_eq!(m.get("b"), Some(&2));
    m.insert("a".to_string(), 3);
    assert_eq!(m.get("a"), Some(&3));
    m.remove("a");
    assert_eq!(m.get("a"), None);
    assert!(m.contains_key("b"));
    m.remove("missing");
    assert!(m.contains_key("b"));
    m.clear();
    assert!(!m.contains_key("b"));
}

#[test]
fn set_insert_contains_remove() {
    let mut s = PathSet::new();
    assert!(s.to_vec().is_empty());
    s.insert("x".to_string());
    s.insert("y".to_string());
    s.insert("x".to_string());
    assert!(s.contains("x"));
    let mut members = s.to_vec();
    members.sort();
    assert_eq!(members, vec!["x", "y"]);
    s.remove("x");
    assert!(!s.contains("x"));
    assert!(s.contains("y"));
    s.clear();
    assert!(!s.contains("y"));
}
