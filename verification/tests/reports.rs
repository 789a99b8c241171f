use vaultkey::bundle::Bundle;
use vaultkey::error::VaultError;
use vaultkey::path::join_path;
use vaultkey::prune::prune_by_prefix;
use vaultkey::quota::{build_usage_from_bundles, status_lines, QuotaPolicy};
use vaultkey::store::{AccessStore, AliasStore, KeyringStore};
use vaultkey::strmap::StrMap;

#[test]
fn quota_status_report() {
    let mut bundles: StrMap<Vec<String>> = StrMap::new();
    bundles.insert("zeta".to_string(), vec!["abc".to_string()]);
    bundles.insert("alpha".to_string(), vec!["x".to_string(), "yz".to_string()]);
    let usage = build_usage_from_bundles(&bundles);
    let policy = QuotaPolicy { max_secrets: Some(2), max_bundles: None, max_secret_size_bytes: None, max_total_size_bytes: Some(100) };
    let lines = status_lines(&usage, &policy);
    assert_eq!(
        lines,
        vec![
            "=== Quota Status ===",
            "Secrets : 3/2",
            "Bundles : 2/unlimited",
            "Total Size: 6 bytes / 100 bytes",
            "",
            "Per-bundle secret counts:",
            "  alpha: 2",
            "  zeta: 1",
            "",
            "[WARN] Quota violation(s): max_secrets: 3/2",
        ]
    );
    let empty = build_usage_from_bundles(&StrMap::new());
    let lines = status_lines(&empty, &QuotaPolicy::default());
    assert_eq!(lines.len(), 6);
    assert_eq!(lines[5], "[OK] All quotas within limits.");
}

#[test]
fn prune_report() {
    let mut b = Bundle::new("b", None);
    b.add_secret("TMP_A", "1");
    b.add_secret("KEEP", "2");
    let r = prune_by_prefix(&mut b, "TMP_", true).unwrap();
    assert_eq!(r.report_lines(), vec!["[dry-run] Would remove 1 key(s), keep 1 key(s)", "Keys to remove:", "  - TMP_A"]);
    let r = prune_by_prefix(&mut b, "NONE", false).unwrap();
    assert_eq!(r.report_lines(), vec!["Removed 0 key(s), kept 2 key(s)", "No matching keys found."]);
}

#[test]
fn stores_and_paths() {
    assert_eq!(AliasStore::new("/data").path(), "/data/aliases.toml");
    assert_eq!(AliasStore::new("").path(), "aliases.toml");
    assert_eq!(AccessStore::new("a.toml").path(), "a.toml");
    assert_eq!(KeyringStore::new("k.toml").path(), "k.toml");
    assert_eq!(join_path("a/", "b"), "a/b");
}

#[test]
fn error_messages() {
    assert_eq!(
        VaultError::ConfigRead("c.toml".into(), "denied".into()).message(),
        "Failed to read config file 'c.toml': denied"
    );
    assert_eq!(VaultError::ConfigParse("bad".into()).message(), "Failed to parse config TOML: bad");
    assert_eq!(VaultError::Validation("v".into()).message(), "Config validation error: v");
    assert_eq!(VaultError::NotFound("n".into()).message(), "n");
}
