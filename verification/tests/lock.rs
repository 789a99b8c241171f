use vaultkey::error::VaultError;
use vaultkey::lock::{lock_path, LockEntry};

#[test]
fn lock_text_format() {
    let e = LockEntry::new_at("main", Some("maintenance".to_string()), 1700000000);
    assert_eq!(
        e.to_toml_string(),
        "vault_name = \"main\"\nlocked_at = 1700000000\nreason = \"maintenance\"\n"
    );
    let e2 = LockEntry::new_at("v", None, 0);
    assert_eq!(e2.to_toml_string(), "vault_name = \"v\"\nlocked_at = 0\n");
}

#[test]
fn lock_text_roundtrip() {
    let e = LockEntry::new_at("main", Some("why not".to_string()), 42);
    assert_eq!(LockEntry::from_toml_str(&e.to_toml_string()).unwrap(), e);
    let e2 = LockEntry::new_at("x", None, u64::MAX);
    assert_eq!(LockEntry::from_toml_str(&e2.to_toml_string()).unwrap(), e2);
}

#[test]
fn lock_parse_lenient_fields() {
    let e = LockEntry::from_toml_str("junk\r\nlocked_at = abc\r\nvault_name = \"\"\"v1\"\r\nvault_name = v2\n").unwrap();
    assert_eq!(e.vault_name, "v2");
    assert_eq!(e.locked_at, 0);
    assert_eq!(e.reason, None);
    let e2 = LockEntry::from_toml_str("vault_name = \"a\"\nlocked_at =  +17 ").unwrap();
    assert_eq!(e2.locked_at, 17);
    let e3 = LockEntry::from_toml_str("vault_name = \"a\"\nlocked_at = 18446744073709551616").unwrap();
    assert_eq!(e3.locked_at, 0);
}

#[test]
fn lock_parse_missing_name() {
    match LockEntry::from_toml_str("locked_at = 5\n") {
        Err(VaultError::Parse(m)) => assert_eq!(m, "missing vault_name in lock file"),
        other => panic!("unexpected {:?}", other),
    }
    assert!(LockEntry::from_toml_str("vault_name = \"\"").is_err());
    assert!(LockEntry::from_toml_str("").is_err());
}

#[test]
fn lock_new_reads_clock() {
    let e = LockEntry::new("v", None);
    assert_eq!(e.vault_name, "v");
    assert!(e.locked_at > 0);
}

#[test]
fn lock_path_joins() {
    assert_eq!(lock_path("/tmp/locks", "main"), "/tmp/locks/main.lock");
    assert_eq!(lock_path("/tmp/locks/", "main"), "/tmp/locks/main.lock");
    assert_eq!(lock_path("", "main"), "main.lock");
    assert_eq!(lock_path("dir", "/abs"), "/abs.lock");
}
