use vaultkey::error::VaultError;
use vaultkey::keyring::{KeyEntry, Keyring};

#[test]
fn key_entry_builders() {
    let k = KeyEntry::new("work", "ABCD").with_email("a@b.c").with_description("laptop");
    assert_eq!(k.alias, "work");
    assert_eq!(k.fingerprint, "ABCD");
    assert_eq!(k.email.as_deref(), Some("a@b.c"));
    assert_eq!(k.description.as_deref(), Some("laptop"));
}

#[test]
fn keyring_add_get_remove() {
    let mut kr = Keyring::new();
    assert!(kr.is_empty());
    kr.add(KeyEntry::new("b", "F2")).unwrap();
    kr.add(KeyEntry::new("a", "F1")).unwrap();
    assert_eq!(kr.len(), 2);
    assert_eq!(kr.get("a").unwrap().fingerprint, "F1");
    let removed = kr.remove("a").unwrap();
    assert_eq!(removed.fingerprint, "F1");
    assert!(kr.get("a").is_none());
    assert_eq!(kr.len(), 1);
}

#[test]
fn keyring_duplicate_and_missing_alias() {
    let mut kr = Keyring::new();
    kr.add(KeyEntry::new("a", "F1")).unwrap();
    match kr.add(KeyEntry::new("a", "F9")) {
        Err(VaultError::Config(m)) => assert_eq!(m, "Key alias 'a' already exists"),
        other => panic!("unexpected {:?}", other),
    }
    assert_eq!(kr.get("a").unwrap().fingerprint, "F1");
    match kr.remove("zz") {
        Err(VaultError::Config(m)) => assert_eq!(m, "Key alias 'zz' not found"),
        other => panic!("unexpected {:?}", other),
    }
}

#[test]
fn keyring_list_sorted_by_alias() {
    let mut kr = Keyring::new();
    kr.add(KeyEntry::new("c", "3")).unwrap();
    kr.add(KeyEntry::new("a", "1")).unwrap();
    kr.add(KeyEntry::new("b", "2")).unwrap();
    let names: Vec<&str> = kr.list().iter().map(|k| k.alias.as_str()).collect();
    assert_eq!(names, vec!["a", "b", "c"]);
}

#[test]
fn keyring_add_then_remove_restores() {
    let mut kr = Keyring::new();
    kr.add(KeyEntry::new("x", "1")).unwrap();
    kr.add(KeyEntry::new("y", "2")).unwrap();
    kr.remove("y").unwrap();
    assert_eq!(kr.len(), 1);
    assert_eq!(kr.get("x").unwrap().fingerprint, "1");
}

#[test]
fn list_is_sorted_and_each_listed_key_is_found() {
    let mut k = Keyring::new();
    for (a, f) in [("zeta", "F3"), ("alpha", "F1"), ("mid", "F2")] {
        k.add(KeyEntry::new(a, f)).unwrap();
    }
    let l = k.list();
    assert_eq!(l.len(), k.len());
    let aliases: Vec<&str> = l.iter().map(|e| e.alias.as_str()).collect();
    assert_eq!(aliases, vec!["alpha", "mid", "zeta"]);
    for e in &l {
        assert_eq!(k.get(&e.alias), Some(*e));
    }
}
