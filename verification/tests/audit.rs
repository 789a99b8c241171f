use vaultkey::audit::{audit_action_from_str, make_entry, recent_entries, status_word, AuditAction, AuditStore};

#[test]
fn action_names() {
    assert_eq!(audit_action_from_str("Secret_Add"), Some(AuditAction::SecretAdd));
    assert_eq!(audit_action_from_str("config_load"), Some(AuditAction::ConfigLoad));
    assert_eq!(audit_action_from_str("secretadd"), None);
    assert_eq!(AuditAction::KeyringUnlock.name(), "KeyringUnlock");
}

#[test]
fn store_records() {
    let s = AuditStore::new("audit.log");
    assert_eq!(s.log.path, "audit.log");
    let e = s.log_secret_add("prod", "DB", true, Some("ann".into()));
    assert_eq!(e.action, AuditAction::SecretAdd);
    assert_eq!(e.target, "prod");
    assert_eq!(e.detail.as_deref(), Some("key=DB"));
    assert_eq!(e.user.as_deref(), Some("ann"));
    assert!(e.success);
    let c = s.log_bundle_create("b", false, None);
    assert_eq!(c.detail, None);
    assert!(!c.success);
    assert!(c.timestamp > 0);
}

#[test]
fn recent_entries_filter_and_limit() {
    let es = vec![
        make_entry(AuditAction::SecretAdd, "a", true, None, None),
        make_entry(AuditAction::SecretGet, "b", true, None, None),
        make_entry(AuditAction::SecretAdd, "c", true, None, None),
        make_entry(AuditAction::SecretAdd, "d", true, None, None),
    ];
    let r: Vec<&str> = recent_entries(&es, Some("SECRETADD"), 2).iter().map(|e| e.target.as_str()).collect();
    assert_eq!(r, vec!["d", "c"]);
    let r: Vec<&str> = recent_entries(&es, None, 10).iter().map(|e| e.target.as_str()).collect();
    assert_eq!(r, vec!["d", "c", "b", "a"]);
    assert!(recent_entries(&es, Some("secret_add"), 10).is_empty());
    assert!(recent_entries(&es, None, 0).is_empty());
    assert_eq!(status_word(true), "OK");
    assert_eq!(status_word(false), "FAIL");
}

#[test]
fn audit_line_format() {
    let mut e = make_entry(AuditAction::SecretGet, "prod", false, Some("key=DB".into()), None);
    e.timestamp = 1700000000;
    assert_eq!(vaultkey::audit::audit_line(&e), "[2023-11-14 22:13:20] [FAIL] SecretGet -> prod key=DB");
    e.detail = None;
    e.success = true;
    assert_eq!(vaultkey::audit::audit_line(&e), "[2023-11-14 22:13:20] [OK] SecretGet -> prod ");
}
