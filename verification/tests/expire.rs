use vaultkey::error::VaultError;
use vaultkey::expire::{ExpireEntry, ExpireRegistry};

#[test]
fn expire_entry_states() {
    let e = ExpireEntry::new("K", 1000, Some(100));
    assert!(!e.is_expired_at(999));
    assert!(e.is_expired_at(1000));
    assert!(!e.is_expiring_soon_at(899));
    assert!(e.is_expiring_soon_at(900));
    assert!(!e.is_expiring_soon_at(1000));
    assert_eq!(e.seconds_remaining_at(400), 600);
    assert_eq!(e.seconds_remaining_at(5000), 0);
    let n = ExpireEntry::new("K", 1000, None);
    assert!(!n.is_expiring_soon_at(999));
    let far = ExpireEntry::new("K", i64::MAX, None);
    assert_eq!(far.seconds_remaining_at(i64::MIN), i64::MAX);
}

#[test]
fn expire_registry_ops() {
    let mut r = ExpireRegistry::new();
    r.set(ExpireEntry::new("a", 100, None));
    r.set(ExpireEntry::new("b", 300, Some(250)));
    r.set(ExpireEntry::new("c", 50, None));
    r.set(ExpireEntry::new("a", 10, None));
    assert_eq!(r.get("a").unwrap().expires_at, 10);
    let expired: Vec<&str> = r.expired_keys_at(100).iter().map(|e| e.key.as_str()).collect();
    assert_eq!(expired, vec!["a", "c"]);
    let soon: Vec<&str> = r.expiring_soon_keys_at(100).iter().map(|e| e.key.as_str()).collect();
    assert_eq!(soon, vec!["b"]);
    assert_eq!(r.purge_expired_at(100), vec!["a".to_string(), "c".to_string()]);
    assert!(r.get("a").is_none());
    match r.remove("zz") {
        Err(VaultError::NotFound(m)) => assert_eq!(m, "No expiry entry for key: zz"),
        other => panic!("unexpected {:?}", other),
    }
    r.remove("b").unwrap();
    assert!(r.get("b").is_none());
}

#[test]
fn expire_with_clock() {
    let mut r = ExpireRegistry::new();
    r.set(ExpireEntry::new("past", 1, None));
    r.set(ExpireEntry::new("future", i64::MAX, Some(1)));
    assert_eq!(r.expired_keys().len(), 1);
    assert!(r.expiring_soon_keys().is_empty());
    assert_eq!(r.purge_expired(), vec!["past".to_string()]);
    assert!(!r.get("future").unwrap().is_expired());
    assert!(r.get("future").unwrap().seconds_remaining() > 0);
}

#[test]
fn purge_keeps_only_live_entries() {
    let mut r = ExpireRegistry::new();
    r.set(ExpireEntry::new("old", 5, None));
    r.set(ExpireEntry::new("edge", 10, None));
    r.set(ExpireEntry::new("live", 11, Some(3)));
    r.purge_expired_at(10);
    assert!(r.get("old").is_none());
    assert!(r.get("edge").is_none());
    assert_eq!(r.get("live").unwrap().expires_at, 11);
    assert_eq!(r.entries.len(), 1);
}
