use vaultkey::error::VaultError;
use vaultkey::pin::PinStore;

#[test]
fn pin_at_and_query() {
    let mut s = PinStore::new();
    s.pin_at("DB", Some("prod".to_string()), 100).unwrap();
    assert!(s.is_pinned("DB"));
    let p = s.get("DB").unwrap();
    assert_eq!(p.pinned_at, 100);
    assert_eq!(p.label.as_deref(), Some("prod"));
}

#[test]
fn pin_blank_key_fails() {
    let mut s = PinStore::new();
    match s.pin_at("   ", None, 1) {
        Err(VaultError::InvalidInput(m)) => assert_eq!(m, "Pin key cannot be empty"),
        other => panic!("unexpected {:?}", other),
    }
    assert!(s.pin("", None).is_err());
}

#[test]
fn pin_with_clock() {
    let mut s = PinStore::new();
    s.pin("K", None).unwrap();
    assert!(s.is_pinned("K"));
}

#[test]
fn unpin_then_not_pinned() {
    let mut s = PinStore::new();
    s.pin_at("A", None, 5).unwrap();
    s.unpin("A").unwrap();
    assert!(!s.is_pinned("A"));
    match s.unpin("A") {
        Err(VaultError::NotFound(m)) => assert_eq!(m, "No pin found for key 'A'"),
        other => panic!("unexpected {:?}", other),
    }
}

#[test]
fn list_earliest_first() {
    let mut s = PinStore::new();
    s.pin_at("late", None, 30).unwrap();
    s.pin_at("early", None, 10).unwrap();
    s.pin_at("mid", None, 20).unwrap();
    let keys: Vec<&str> = s.list().iter().map(|p| p.key.as_str()).collect();
    assert_eq!(keys, vec!["early", "mid", "late"]);
}
