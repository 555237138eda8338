use data_scraper::field_map::FieldMap;

fn map(pairs: &[(&str, &str)]) -> FieldMap {
    let mut m = FieldMap::new();
    for (k, v) in pairs {
        m.insert(k.to_string(), v.to_string());
    }
    m
}

#[test]
fn get_after_insert_returns_the_value() {
    let m = map(&[("title", "A"), ("price", "3")]);
    assert_eq!(m.get("title").map(|s| s.as_str()), Some("A"));
    assert_eq!(m.get("price").map(|s| s.as_str()), Some("3"));
    assert_eq!(m.get("missing"), None);
    assert!(m.contains_key("price"));
    assert!(!m.contains_key("Price"));
}

#[test]
fn insert_overwrites_in_place() {
    let m = map(&[("a", "1"), ("b", "2"), ("a", "3")]);
    assert_eq!(m.len(), 2);
    assert_eq!(m.get("a").map(|s| s.as_str()), Some("3"));
    assert_eq!(m.keys(), vec!["a".to_string(), "b".to_string()]);
    assert_eq!(m.position("b"), Some(1));
    let (k, v) = m.entry(0);
    assert_eq!((k.as_str(), v.as_str()), ("a", "3"));
}

#[test]
fn empty_map_has_no_entries() {
    let m = FieldMap::new();
    assert!(m.is_empty());
    assert_eq!(m.len(), 0);
    assert_eq!(m.position("x"), None);
    assert!(m.keys().is_empty());
}

#[test]
fn clone_keeps_every_entry() {
    let m = map(&[("x", "1"), ("y", "")]);
    let c = m.clone();
    assert_eq!(c, m);
    assert_eq!(c.get("y").map(|s| s.as_str()), Some(""));
}

#[test]
fn empty_key_is_a_key_like_any_other() {
    let m = map(&[("", "root"), ("k", "v")]);
    assert_eq!(m.get("").map(|s| s.as_str()), Some("root"));
    assert_eq!(m.len(), 2);
}
