use vaultkey::ttl::{TtlEntry, TtlStore};

#[test]
fn ttl_entry_times() {
    let e = TtlEntry::at("K", 60, 1000);
    assert_eq!(e.expires_at, 1060);
    assert!(!e.is_expired_at(1059));
    assert!(e.is_expired_at(1060));
    assert_eq!(e.seconds_remaining_at(1000), 60);
    assert_eq!(e.seconds_remaining_at(2000), 0);
}

#[test]
fn ttl_entry_new_uses_clock() {
    let e = TtlEntry::new("K", 3600).unwrap();
    assert!(!e.is_expired());
    assert!(e.seconds_remaining() > 0);
    assert!(TtlEntry::new("K", u64::MAX).is_err());
}

#[test]
fn ttl_set_replaces_and_get() {
    let mut s = TtlStore::new();
    s.set_at("A", 10, 0);
    s.set_at("B", 20, 0);
    s.set_at("A", 30, 0);
    assert_eq!(s.entries.len(), 2);
    assert_eq!(s.entries[1].key, "A");
    assert_eq!(s.get("A").unwrap().expires_at, 30);
    assert!(s.get("C").is_none());
    s.set("C", 100).unwrap();
    assert!(s.get("C").is_some());
}

#[test]
fn ttl_remove_and_purge() {
    let mut s = TtlStore::new();
    s.set_at("A", 10, 0);
    s.set_at("B", 100, 0);
    s.set_at("C", 5, 0);
    assert_eq!(s.expired_keys_at(50), vec!["A".to_string(), "C".to_string()]);
    assert_eq!(s.purge_expired_at(50), vec!["A".to_string(), "C".to_string()]);
    assert_eq!(s.entries.len(), 1);
    assert!(s.remove("B"));
    assert!(!s.remove("B"));
}

#[test]
fn ttl_purge_with_clock() {
    let mut s = TtlStore::new();
    s.set_at("old", 1, 0);
    s.set("new", 3600).unwrap();
    assert_eq!(s.expired_keys(), vec!["old".to_string()]);
    assert_eq!(s.purge_expired(), vec!["old".to_string()]);
    assert!(s.get("new").is_some());
}

#[test]
fn set_with_clock_outcomes() {
    let mut s = TtlStore::new();
    s.set_with_clock("a", 5, Ok(100)).unwrap();
    s.set_with_clock("b", 1, Ok(7)).unwrap();
    s.set_with_clock("a", 10, Ok(200)).unwrap();
    assert_eq!(s.entries.len(), 2);
    assert_eq!((s.entries[0].key.as_str(), s.entries[0].expires_at), ("b", 8));
    assert_eq!((s.entries[1].key.as_str(), s.entries[1].expires_at), ("a", 210));
    let e = s.set_with_clock("c", 2, Ok(u64::MAX)).unwrap_err();
    assert_eq!(e.message(), "TTL expiry time does not fit in a u64");
    let e = s.set_with_clock("c", 2, Err("clock went back".to_string())).unwrap_err();
    assert_eq!(e.message(), "clock went back");
    assert_eq!(s.entries.len(), 2);
}
