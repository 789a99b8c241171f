use vaultkey::alias::AliasMap;
use vaultkey::bundle::Bundle;
use vaultkey::diff::{diff_bundles, DiffEntry};
use vaultkey::env::{render_env, shell_escape, to_env_map, EnvFormat};
use vaultkey::error::VaultError;
use vaultkey::fmt::{pad_left, pad_right, render_plain, render_table, OutputFormat};
use vaultkey::lint::{has_errors, lint_bundle, LintLevel};
use vaultkey::merge::{merge_bundles, MergeStrategy};
use vaultkey::prune::{prune, prune_by_keys, prune_empty_values, PruneMode};
use vaultkey::quota::{check_quota, check_secret_size, QuotaPolicy, QuotaUsage, QuotaViolation};
use vaultkey::redact::{format_redacted, is_sensitive_key, redact_bundle};
use vaultkey::resolve::{resolve, ResolveSource};
use vaultkey::rotate::{rotate_vault_key, AuditEvent, CryptoBackend, RotateOptions};
use vaultkey::search::{search_bundle, SearchQuery, SearchResult};
use vaultkey::strmap::StrMap;
use vaultkey::template::TemplateRenderer;

fn bundle(name: &str, pairs: &[(&str, &str)]) -> Bundle {
    let mut b = Bundle::new(name, None);
    for (k, v) in pairs {
        b.add_secret(k, v);
    }
    b
}

fn secrets(pairs: &[(&str, &str)]) -> StrMap<String> {
    let mut m = StrMap::new();
    for (k, v) in pairs {
        m.insert(k.to_string(), v.to_string());
    }
    m
}

// ---- bundles ----

#[test]
fn bundle_add_get_remove() {
    let mut b = bundle("app", &[("A", "1")]);
    assert_eq!(b.get_secret("A").unwrap(), "1");
    b.add_secret("A", "2");
    assert_eq!(b.get_secret("A").unwrap(), "2");
    b.remove_secret("A").unwrap();
    let e = b.get_secret("A").unwrap_err();
    assert!(matches!(e, VaultError::NotFound(_)));
    assert_eq!(e.message(), "Secret 'A' not found in bundle 'app'");
    assert!(matches!(b.remove_secret("A"), Err(VaultError::NotFound(_))));
}

// ---- merging ----

#[test]
fn merge_fails_on_conflict_by_default() {
    let t = bundle("t", &[("A", "1"), ("B", "2")]);
    let s = bundle("s", &[("B", "x"), ("A", "y"), ("C", "3")]);
    let e = merge_bundles(&t, &s, &MergeStrategy::default()).unwrap_err();
    assert!(matches!(e, VaultError::Config(_)));
    assert_eq!(e.message(), "Merge conflicts on keys: B, A");
}

#[test]
fn merge_keep_source_overwrites() {
    let t = bundle("t", &[("A", "1"), ("B", "2")]);
    let s = bundle("s", &[("B", "x"), ("C", "3")]);
    let m = merge_bundles(&t, &s, &MergeStrategy::KeepSource).unwrap();
    assert_eq!(m.merged.name, "t");
    assert_eq!(m.merged.secrets.get("A").unwrap(), "1");
    assert_eq!(m.merged.secrets.get("B").unwrap(), "x");
    assert_eq!(m.merged.secrets.get("C").unwrap(), "3");
    assert_eq!(m.added, vec!["C".to_string()]);
    assert_eq!(m.overwritten, vec!["B".to_string()]);
    assert!(m.conflicts.is_empty());
}

#[test]
fn merge_keep_target_keeps() {
    let t = bundle("t", &[("B", "2")]);
    let s = bundle("s", &[("B", "x")]);
    let m = merge_bundles(&t, &s, &MergeStrategy::KeepTarget).unwrap();
    assert_eq!(m.merged.secrets.get("B").unwrap(), "2");
    assert!(m.added.is_empty() && m.overwritten.is_empty());
}

// ---- diffs ----

#[test]
fn diff_reports_each_kind() {
    let old = bundle("o", &[("A", "1"), ("B", "2"), ("C", "3")]);
    let new = bundle("n", &[("A", "1"), ("B", "9"), ("D", "4")]);
    let d = diff_bundles(&old, &new);
    assert!(d.has_changes());
    assert_eq!(d.added(), vec!["D"]);
    assert_eq!(d.removed(), vec!["C"]);
    assert_eq!(d.modified(), vec!["B"]);
    assert!(matches!(d.entries.get("A"), Some(DiffEntry::Unchanged)));
}

#[test]
fn diff_of_equal_bundles_has_no_changes() {
    let a = bundle("a", &[("A", "1")]);
    let b = bundle("b", &[("A", "1")]);
    assert!(!diff_bundles(&a, &b).has_changes());
}

// ---- environment ----

#[test]
fn env_lines_are_sorted_and_sanitized() {
    let b = bundle("b", &[("db.pass", "a b"), ("api-key", "x")]);
    let shell = render_env(&b, &EnvFormat::default());
    assert_eq!(shell, vec!["export API_KEY=x".to_string(), "export DB_PASS='a b'".to_string()]);
    let dotenv = render_env(&b, &EnvFormat::Dotenv);
    assert_eq!(dotenv, vec!["API_KEY=x".to_string(), "DB_PASS=a b".to_string()]);
    let m = to_env_map(&b);
    assert_eq!(m.get("DB_PASS").unwrap(), "a b");
}

#[test]
fn shell_escape_quotes_when_needed() {
    assert_eq!(shell_escape("plain"), "plain");
    assert_eq!(shell_escape("it's"), "'it'\\''s'");
    assert_eq!(shell_escape("$HOME"), "'$HOME'");
}

// ---- formatting ----

#[test]
fn output_format_parses() {
    assert_eq!(OutputFormat::from_str("JSON").unwrap(), OutputFormat::Json);
    assert_eq!(OutputFormat::default(), OutputFormat::Table);
    let e = OutputFormat::from_str("xml").unwrap_err();
    assert_eq!(e.message(), "Unknown output format: 'xml'. Valid options: table, json, plain");
}

#[test]
fn table_and_plain_rendering() {
    assert_eq!(render_table(&["K", "V"], &[]), "(no entries)\n");
    let rows = vec![vec!["key".to_string(), "v".to_string()]];
    assert_eq!(
        render_table(&["K", "Value"], &rows),
        "+-----+-------+\n| K   | Value |\n+-----+-------+\n| key | v     |\n+-----+-------+\n"
    );
    let pairs = vec![("a".to_string(), "1".to_string()), ("b".to_string(), "2".to_string())];
    assert_eq!(render_plain(&pairs), "a: 1\nb: 2\n");
    assert_eq!(pad_right("ab", 4), "ab  ");
    assert_eq!(pad_left("ab", 4), "  ab");
}

// ---- lint ----

#[test]
fn lint_finds_problems() {
    let b = bundle("b", &[("GOOD_KEY", "value"), ("bad key", "TODO"), ("EMPTY", "  ")]);
    let diags = lint_bundle(&b);
    assert_eq!(diags.len(), 3);
    assert_eq!(diags[0].key, "bad key");
    assert_eq!(diags[0].level, LintLevel::Error);
    assert_eq!(diags[0].message, "Key contains invalid characters; use only [a-zA-Z0-9_-]");
    assert_eq!(diags[1].level, LintLevel::Warning);
    assert_eq!(diags[1].message, "Value looks like a placeholder: 'TODO'");
    assert_eq!(diags[2].key, "EMPTY");
    assert_eq!(diags[2].message, "Value is empty");
    assert!(has_errors(&diags));
    assert!(!has_errors(&lint_bundle(&bundle("b", &[("OK", "v")]))));
}

#[test]
fn lint_flags_case_duplicates_and_long_keys() {
    let long = "K".repeat(65);
    let b = bundle("b", &[("Key", "v"), ("KEY", "w"), (long.as_str(), "x")]);
    let diags = lint_bundle(&b);
    assert_eq!(diags.len(), 2);
    assert_eq!(diags[0].key, "KEY");
    assert_eq!(diags[0].message, "Duplicate key detected (case-insensitive)");
    assert_eq!(diags[1].message, "Key name exceeds 64 characters");
}

// ---- pruning ----

#[test]
fn prune_empty_and_by_keys() {
    let mut b = bundle("b", &[("A", ""), ("B", "x"), ("C", " ")]);
    let r = prune_empty_values(&mut b, true).unwrap();
    assert_eq!(r.removed_keys, vec!["A".to_string(), "C".to_string()]);
    assert_eq!(r.summary(), "[dry-run] Would remove 2 key(s), keep 1 key(s)");
    assert_eq!(b.secrets.len(), 3);
    let r = prune_by_keys(&mut b, &["B".to_string(), "Z".to_string()], false).unwrap();
    assert_eq!(r.removed_keys, vec!["B".to_string()]);
    assert_eq!(r.summary(), "Removed 1 key(s), kept 2 key(s)");
    assert!(b.secrets.get("B").is_none());
    let r = prune(&mut b, &PruneMode::Empty, false).unwrap();
    assert_eq!(r.removed_keys.len(), 2);
    assert!(b.secrets.is_empty());
}

// ---- quotas ----

#[test]
fn quota_checks() {
    let policy = QuotaPolicy::default();
    let usage = QuotaUsage { secret_count: 500, bundle_count: 1, total_size_bytes: 10, per_bundle: StrMap::new() };
    let e = check_quota(&policy, &usage).unwrap_err();
    assert_eq!(e.message(), "Quota violation(s): max_secrets: 500/500");
    let ok = QuotaUsage { secret_count: 499, bundle_count: 49, total_size_bytes: 10, per_bundle: StrMap::new() };
    assert!(check_quota(&policy, &ok).is_ok());
    assert!(check_secret_size(&policy, 4096).is_ok());
    let e = check_secret_size(&policy, 4097).unwrap_err();
    assert_eq!(e.message(), "Secret size 4097 bytes exceeds limit of 4096 bytes");
    let v = QuotaViolation { field: "max_bundles".to_string(), current: 51, limit: 50 };
    assert_eq!(v.message(), "Quota exceeded for 'max_bundles': current=51, limit=50");
}

// ---- redaction ----

#[test]
fn redaction_hides_sensitive_values() {
    assert!(is_sensitive_key("DB_PASSWORD"));
    assert!(!is_sensitive_key("HOST"));
    let b = bundle("svc", &[("HOST", "h"), ("API_TOKEN", "t"), ("PORT", "1")]);
    let rb = redact_bundle(&b, &vec!["PORT".to_string()], false).unwrap();
    assert_eq!(rb.redacted_count, 2);
    assert_eq!(
        format_redacted(&rb),
        "Bundle: svc\n  [*] API_TOKEN = [REDACTED]\n  [ ] HOST = h\n  [*] PORT = [REDACTED]\n  (2 value(s) redacted)"
    );
    let all = redact_bundle(&b, &vec![], true).unwrap();
    assert_eq!(all.redacted_count, 0);
    assert_eq!(all.entries[0].value, "t");
}

// ---- resolution ----

#[test]
fn resolution_order() {
    let b = bundle("b", &[("DB_URL", "pg"), ("db", "direct")]);
    let mut aliases = AliasMap::new();
    aliases.add("db", "DB_URL").unwrap();
    let r = resolve("db", &b, &aliases, false, None).unwrap();
    assert_eq!((r.key.as_str(), r.value.as_str(), r.source), ("DB_URL", "pg", ResolveSource::Alias));
    let r = resolve("DB_URL", &b, &aliases, false, None).unwrap();
    assert_eq!(r.source, ResolveSource::Bundle);
    let r = resolve("HOME", &b, &aliases, true, Some("/root")).unwrap();
    assert_eq!((r.value.as_str(), r.source), ("/root", ResolveSource::Environment));
    let e = resolve("HOME", &b, &aliases, false, Some("/root")).unwrap_err();
    assert_eq!(e.message(), "key 'HOME' could not be resolved");
}

// ---- search ----

#[test]
fn search_matches_keys_and_values() {
    let b = bundle("b", &[("DB_HOST", "localhost"), ("API", "db-token"), ("X", "y")]);
    let rs = search_bundle(&b, &SearchQuery::new("db")).unwrap();
    assert_eq!(rs.len(), 2);
    assert_eq!(rs[0].key, "API");
    assert_eq!(rs[0].match_location(), "value");
    assert_eq!(rs[1].key, "DB_HOST");
    assert_eq!(rs[1].match_location(), "key");
    let rs = search_bundle(&b, &SearchQuery::new("db").case_sensitive(true)).unwrap();
    assert_eq!(rs.len(), 1);
    let rs = search_bundle(&b, &SearchQuery::new("db").keys_only(true)).unwrap();
    assert_eq!(rs.len(), 1);
    assert!(rs[0].value.is_none());
    let none = SearchResult { key: "k".to_string(), value: None, matched_in_key: false, matched_in_value: false };
    assert_eq!(none.match_location(), "nowhere");
}

// ---- templates ----

#[test]
fn template_rendering() {
    let r = TemplateRenderer::default();
    let s = secrets(&[("USER", "bob"), ("HOST", "h")]);
    assert_eq!(r.render("u={{{ USER }}}@{{{HOST}}}", &s).unwrap(), "u=bob@h");
    let e = r.render("{{{MISSING}}}", &s).unwrap_err();
    assert_eq!(e.message(), "Template key not found in secrets: 'MISSING'");
    assert_eq!(r.render("no placeholders {{{", &s).unwrap(), "no placeholders {{{");
    assert_eq!(r.extract_keys("{{{A}}} and {{{ B }}} {{{}}}"), vec!["A".to_string(), "B".to_string()]);
    let custom = TemplateRenderer::new("<", ">");
    assert_eq!(custom.render("<USER>!", &s).unwrap(), "bob!");
}

// ---- rotation ----

struct Shift;

impl CryptoBackend for Shift {
    fn decrypt(&self, ciphertext: &String, recipient: &str) -> Result<String, VaultError> {
        match ciphertext.strip_prefix(&format!("{}:", recipient)) {
            Some(p) => Ok(p.to_string()),
            None => Err(VaultError::Crypto(format!("cannot decrypt for {}", recipient))),
        }
    }

    fn encrypt(&self, plaintext: &String, recipient: &str) -> Result<String, VaultError> {
        Ok(format!("{}:{}", recipient, plaintext))
    }
}

fn opts(dry_run: bool) -> RotateOptions {
    RotateOptions {
        vault_path: "v.toml".to_string(),
        old_recipient: "old".to_string(),
        new_recipient: "new".to_string(),
        dry_run,
    }
}

#[test]
fn rotation_reencrypts_every_secret() {
    let mut s = secrets(&[("A", "old:1"), ("B", "old:2")]);
    let mut audit: Vec<AuditEvent> = Vec::new();
    assert_eq!(rotate_vault_key(&opts(false), &mut s, &Shift, &mut audit).unwrap(), 2);
    assert_eq!(s.get("A").unwrap(), "new:1");
    assert_eq!(s.get("B").unwrap(), "new:2");
    assert_eq!(audit.len(), 3);
    assert_eq!(audit[0].kind, "rotate_secret");
    assert_eq!(audit[0].message, "Rotated secret 'A' to new recipient");
    assert_eq!(audit[2].message, "Rotated 2/2 secrets in vault 'v.toml'");
}

#[test]
fn rotation_dry_run_changes_nothing() {
    let mut s = secrets(&[("A", "old:1")]);
    let mut audit: Vec<AuditEvent> = Vec::new();
    assert_eq!(rotate_vault_key(&opts(true), &mut s, &Shift, &mut audit).unwrap(), 1);
    assert_eq!(s.get("A").unwrap(), "old:1");
    assert_eq!(audit.len(), 1);
    assert_eq!(audit[0].message, "Would rotate 1 secrets from old to new");
}

#[test]
fn rotation_stops_at_first_failure() {
    let mut s = secrets(&[("A", "old:1"), ("B", "other:2")]);
    let mut audit: Vec<AuditEvent> = Vec::new();
    let e = rotate_vault_key(&opts(false), &mut s, &Shift, &mut audit).unwrap_err();
    assert_eq!(e.message(), "cannot decrypt for old");
    assert_eq!(s.get("A").unwrap(), "new:1");
    assert_eq!(s.get("B").unwrap(), "other:2");
}

// ---- sorted maps ----

#[test]
fn strmap_keeps_keys_unique() {
    let mut m: StrMap<String> = StrMap::new();
    assert_eq!(m.insert("a".to_string(), "1".to_string()), None);
    assert_eq!(m.insert("a".to_string(), "2".to_string()), Some("1".to_string()));
    assert_eq!(m.len(), 1);
    assert_eq!(m.remove("a"), Some("2".to_string()));
    assert!(m.is_empty());
}

#[test]
fn rotation_of_an_empty_vault_completes() {
    let mut s: StrMap<String> = StrMap::new();
    let mut audit: Vec<AuditEvent> = Vec::new();
    assert_eq!(rotate_vault_key(&opts(false), &mut s, &Shift, &mut audit).unwrap(), 0);
    assert_eq!(audit.len(), 1);
    assert_eq!(audit[0].kind, "rotate_complete");
    assert_eq!(audit[0].message, "Rotated 0/0 secrets in vault 'v.toml'");
}

#[test]
fn failed_rotation_writes_no_completion_record() {
    let mut s = secrets(&[("A", "old:1"), ("B", "other:2"), ("C", "old:3")]);
    let mut audit: Vec<AuditEvent> = Vec::new();
    assert!(rotate_vault_key(&opts(false), &mut s, &Shift, &mut audit).is_err());
    assert_eq!(s.get("C").unwrap(), "old:3");
    assert_eq!(audit.len(), 1);
    assert_eq!(audit[0].kind, "rotate_secret");
}

#[test]
fn bundle_stamps_are_rfc3339_utc() {
    let mut b = Bundle::new("app", None);
    assert_eq!(b.created_at.len(), 25);
    assert!(b.created_at.ends_with("+00:00"));
    assert_eq!(&b.created_at[10..11], "T");
    b.add_secret("K", "v");
    assert!(b.updated_at.ends_with("+00:00"));
}
