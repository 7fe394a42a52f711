use q3_client::ServerKeys;

#[test]
fn keys_start_empty() {
    let keys = ServerKeys::new();
    assert_eq!(keys.len(), 0);
    assert_eq!(keys.get("a"), None);
    assert!(keys.entries().is_empty());
}

#[test]
fn keys_insert_and_get() {
    let mut keys = ServerKeys::new();
    keys.insert("a".to_string(), "1".to_string());
    keys.insert("b".to_string(), "2".to_string());
    assert_eq!(keys.len(), 2);
    assert_eq!(keys.get("a").map(|v| v.as_str()), Some("1"));
    assert_eq!(keys.get("b").map(|v| v.as_str()), Some("2"));
    assert_eq!(keys.get("c"), None);
    assert_eq!(keys.get(""), None);
}

#[test]
fn keys_insert_replaces_value() {
    let mut keys = ServerKeys::new();
    keys.insert("a".to_string(), "1".to_string());
    keys.insert("b".to_string(), "2".to_string());
    keys.insert("a".to_string(), "3".to_string());
    assert_eq!(keys.len(), 2);
    assert_eq!(keys.get("a").map(|v| v.as_str()), Some("3"));
    assert_eq!(keys.get("b").map(|v| v.as_str()), Some("2"));
}

#[test]
fn keys_entries_hold_each_key_once() {
    let mut keys = ServerKeys::new();
    keys.insert("a".to_string(), "1".to_string());
    keys.insert("b".to_string(), "2".to_string());
    keys.insert("a".to_string(), "3".to_string());
    let entries = keys.entries();
    assert_eq!(
        entries,
        &vec![("a".to_string(), "3".to_string()), ("b".to_string(), "2".to_string())]
    );
}

#[test]
fn keys_tell_keys_apart_by_case() {
    let mut keys = ServerKeys::new();
    keys.insert("Key".to_string(), "1".to_string());
    keys.insert("key".to_string(), "2".to_string());
    assert_eq!(keys.len(), 2);
    assert_eq!(keys.get("Key").map(|v| v.as_str()), Some("1"));
    assert_eq!(keys.get("key").map(|v| v.as_str()), Some("2"));
}
