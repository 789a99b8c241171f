use vaultkey::alias::AliasMap;
use vaultkey::bundle::Bundle;
use vaultkey::error::VaultError;
use vaultkey::expire::{cmd_expire_check_at, cmd_expire_list_at, cmd_expire_purge_at, cmd_expire_set_at, ExpireEntry, ExpireRegistry};
use vaultkey::import::{import_summary, ImportArgs};
use vaultkey::keyring::{KeyEntry, Keyring};
use vaultkey::pin::PinStore;
use vaultkey::report::{
    alias_list_lines, find_snapshot, key_list_lines, key_show_lines, pin_list_lines, snapshot_diff_lines, snapshot_list_lines,
    ttl_list_lines,
};
use vaultkey::snapshot::Snapshot;
use vaultkey::ttl::TtlStore;

#[test]
fn key_listing() {
    let mut kr = Keyring::new();
    assert_eq!(key_list_lines(&kr.list()), vec!["No keys in keyring."]);
    kr.add(KeyEntry::new("work", "ABC").with_email("w@x")).unwrap();
    kr.add(KeyEntry::new("home", "DEF")).unwrap();
    let lines = key_list_lines(&kr.list());
    assert_eq!(lines[0], format!("{:<20} {:<52} {}", "ALIAS", "FINGERPRINT", "EMAIL"));
    assert_eq!(lines[1], "-".repeat(80));
    assert_eq!(lines[2], format!("{:<20} {:<52} {}", "home", "DEF", "-"));
    assert_eq!(lines[3], format!("{:<20} {:<52} {}", "work", "ABC", "w@x"));
    let show = key_show_lines(kr.get("work").unwrap());
    assert_eq!(show, vec!["Alias:       work", "Fingerprint: ABC", "Email:       w@x"]);
}

#[test]
fn alias_listing() {
    let mut m = AliasMap::new();
    assert_eq!(alias_list_lines(&m.list()), vec!["No aliases defined."]);
    m.add("db", "DATABASE_URL").unwrap();
    let lines = alias_list_lines(&m.list());
    assert_eq!(lines, vec![format!("{:<24} {}", "ALIAS", "TARGET"), "-".repeat(48), format!("{:<24} {}", "db", "DATABASE_URL")]);
}

#[test]
fn pin_listing() {
    let mut s = PinStore::new();
    assert_eq!(pin_list_lines(&s.list()), vec!["No pinned secrets."]);
    s.pin_at("K", Some("lbl".into()), 7).unwrap();
    let lines = pin_list_lines(&s.list());
    assert_eq!(lines[0], format!("{:<30} {:<20} {}", "Key", "Label", "Pinned At (unix)"));
    assert_eq!(lines[2], format!("{:<30} {:<20} {}", "K", "lbl", 7));
}

#[test]
fn ttl_listing() {
    let mut s = TtlStore::new();
    assert_eq!(ttl_list_lines(&s.entries, 0), vec!["No TTL entries."]);
    s.set_at("A", 10, 100);
    s.set_at("B", 1, 100);
    let lines = ttl_list_lines(&s.entries, 105);
    assert_eq!(lines[0], format!("{:<30} {:>15}  {}", "Key", "Remaining (s)", "Status"));
    assert_eq!(lines[1], "-".repeat(58));
    assert_eq!(lines[2], format!("{:<30} {:>15}  {}", "A", 5, "active"));
    assert_eq!(lines[3], format!("{:<30} {:>15}  {}", "B", 0, "EXPIRED"));
}

#[test]
fn snapshot_reports() {
    let mut b = Bundle::new("b", None);
    b.add_secret("X", "1");
    let s1 = Snapshot::new_at(&b, None, 1700000000);
    b.add_secret("X", "2");
    b.add_secret("A", "new");
    let s2 = Snapshot::new_at(&b, Some("v2".into()), 1700000100);
    let snaps = vec![s1, s2];
    let lines = snapshot_list_lines(&snaps);
    assert_eq!(lines[2], format!("{:<20} {:<25} {}", "1700000000", "2023-11-14 22:13:20 UTC", "-"));
    assert_eq!(lines[3], format!("{:<20} {:<25} {}", "1700000100", "2023-11-14 22:15:00 UTC", "v2"));
    assert_eq!(snapshot_list_lines(&[]), vec!["No snapshots found."]);
    let a = find_snapshot(&snaps, "1700000100").unwrap();
    let old = find_snapshot(&snaps, "1700000000").unwrap();
    match find_snapshot(&snaps, "9") {
        Err(VaultError::NotFound(m)) => assert_eq!(m, "Snapshot '9' not found"),
        other => panic!("unexpected {:?}", other.map(|s| s.id.clone())),
    }
    let d = a.diff_from(old);
    let lines = snapshot_diff_lines("1700000100", "1700000000", &d);
    assert_eq!(lines, vec!["Diff: 1700000000 → 1700000100", &"-".repeat(40), "+ A: new", "~ X: 1 → 2"]);
    assert_eq!(snapshot_diff_lines("a", "a", &a.diff_from(a)), vec!["No differences between snapshots."]);
}

#[test]
fn expire_commands() {
    let mut r = ExpireRegistry::new();
    match cmd_expire_set_at(&mut r, "K", 0, None, 100) {
        Err(VaultError::InvalidInput(m)) => assert_eq!(m, "TTL must be positive"),
        other => panic!("unexpected {:?}", other),
    }
    assert_eq!(cmd_expire_set_at(&mut r, "K", 60, Some(30), 1700000000).unwrap(), "Expiry set for 'K': expires in 60 seconds");
    assert_eq!(r.get("K").unwrap().expires_at, 1700000060);
    assert_eq!(cmd_expire_check_at(&r, "K", 1700000000).unwrap(), "[OK] 'K' valid — 60 seconds remaining");
    assert_eq!(cmd_expire_check_at(&r, "K", 1700000040).unwrap(), "[WARN] 'K' expiring soon — 20 seconds remaining");
    assert_eq!(cmd_expire_check_at(&r, "K", 1700000060).unwrap(), "[EXPIRED] 'K' expired at 2023-11-14 22:14:20 UTC");
    match cmd_expire_check_at(&r, "Z", 0) {
        Err(VaultError::NotFound(m)) => assert_eq!(m, "No expiry configured for key: Z"),
        other => panic!("unexpected {:?}", other),
    }
    r.set(ExpireEntry::new("L", 1700000100, None));
    assert_eq!(
        cmd_expire_list_at(&r, 1700000070),
        vec!["[EXPIRED] K — expires at 2023-11-14 22:14:20 UTC", "[OK] L — expires at 2023-11-14 22:15:00 UTC"]
    );
    assert_eq!(cmd_expire_purge_at(&mut r, 1700000070), vec!["Purged 1 expired entries:", "  - K"]);
    assert_eq!(cmd_expire_purge_at(&mut r, 1700000070), vec!["No expired entries to purge."]);
    assert_eq!(cmd_expire_list_at(&ExpireRegistry::new(), 0), vec!["No expiry entries registered."]);
}

#[test]
fn import_messages() {
    let a = ImportArgs { file: "in.env".into(), format: "env".into(), vault: None, dry_run: true };
    assert_eq!(a.vault_path(), "vault.toml");
    assert_eq!(a.dry_run_lines(), vec!["[dry-run] Reading from: in.env", "[dry-run] Format: env", "[dry-run] No changes will be saved."]);
    assert_eq!(import_summary(2, "v.toml"), "Successfully imported 2 secret(s) into v.toml");
}
