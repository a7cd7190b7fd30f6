use scratch_server::Store;

#[test]
fn a_new_store_is_empty() {
    let store = Store::new();
    assert_eq!(store.len(), 0);
    assert_eq!(store.get("abc"), None);
}

#[test]
fn insert_then_get() {
    let mut store = Store::new();
    store.insert("abc".to_string(), "https://example.com".to_string());
    assert_eq!(store.get("abc"), Some("https://example.com"));
    assert_eq!(store.get("abd"), None);
    assert_eq!(store.len(), 1);
}

#[test]
fn insert_overwrites() {
    let mut store = Store::new();
    store.insert("abc".to_string(), "https://one".to_string());
    store.insert("abc".to_string(), "https://two".to_string());
    assert_eq!(store.get("abc"), Some("https://two"));
    assert_eq!(store.len(), 1);
}

#[test]
fn codes_are_told_apart_by_case() {
    let mut store = Store::new();
    store.insert("abc".to_string(), "https://lower".to_string());
    store.insert("ABC".to_string(), "https://upper".to_string());
    assert_eq!(store.get("abc"), Some("https://lower"));
    assert_eq!(store.get("ABC"), Some("https://upper"));
    assert_eq!(store.len(), 2);
}
