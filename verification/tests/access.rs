use vaultkey::access::{bundle_matches, parse_permissions, AccessPolicy, AccessRule, Permission};
use vaultkey::error::VaultError;

fn rule(id: &str, pattern: &str, perms: Vec<Permission>) -> AccessRule {
    AccessRule { identity: id.to_string(), permissions: perms, bundle_pattern: pattern.to_string() }
}

#[test]
fn pattern_star_prefix_and_exact() {
    assert!(bundle_matches("*", "anything"));
    assert!(bundle_matches("prod-*", "prod-db"));
    assert!(bundle_matches("prod-*", "prod-"));
    assert!(!bundle_matches("prod-*", "dev-db"));
    assert!(bundle_matches("dev", "dev"));
    assert!(!bundle_matches("dev", "dev2"));
}

#[test]
fn check_needs_identity_pattern_and_permission() {
    let mut p = AccessPolicy::new();
    p.add_rule(rule("alice", "prod-*", vec![Permission::Read]));
    assert!(p.check("alice", "prod-api", &Permission::Read));
    assert!(!p.check("alice", "prod-api", &Permission::Write));
    assert!(!p.check("bob", "prod-api", &Permission::Read));
    assert!(!p.check("alice", "dev-api", &Permission::Read));
}

#[test]
fn add_rule_replaces_same_slot() {
    let mut p = AccessPolicy::new();
    p.add_rule(rule("alice", "db", vec![Permission::Read]));
    p.add_rule(rule("bob", "db", vec![Permission::Admin]));
    p.add_rule(rule("alice", "db", vec![Permission::Write]));
    assert_eq!(p.rules.len(), 2);
    assert_eq!(p.rules[0].identity, "bob");
    assert_eq!(p.rules[1].permissions, vec![Permission::Write]);
    assert!(!p.check("alice", "db", &Permission::Read));
}

#[test]
fn remove_rule_reports_whether_found() {
    let mut p = AccessPolicy::new();
    p.add_rule(rule("alice", "db", vec![Permission::Read]));
    assert!(!p.remove_rule("alice", "other"));
    assert!(p.remove_rule("alice", "db"));
    assert!(p.rules.is_empty());
    assert!(!p.check("alice", "db", &Permission::Read));
}

#[test]
fn list_for_identity_keeps_order() {
    let mut p = AccessPolicy::new();
    p.add_rule(rule("alice", "a", vec![]));
    p.add_rule(rule("bob", "b", vec![]));
    p.add_rule(rule("alice", "c", vec![]));
    let l = p.list_for_identity("alice");
    assert_eq!(l.len(), 2);
    assert_eq!(l[0].bundle_pattern, "a");
    assert_eq!(l[1].bundle_pattern, "c");
}

#[test]
fn summary_groups_patterns_by_identity() {
    let mut p = AccessPolicy::new();
    p.add_rule(rule("alice", "a", vec![]));
    p.add_rule(rule("bob", "b", vec![]));
    p.add_rule(rule("alice", "c", vec![]));
    let s = p.summary();
    assert_eq!(s.len(), 2);
    assert_eq!(s.get("alice").unwrap(), &vec!["a".to_string(), "c".to_string()]);
    assert_eq!(s.get("bob").unwrap(), &vec!["b".to_string()]);
}

#[test]
fn parse_permissions_ok_and_first_error() {
    let ok = parse_permissions(&["read", "admin"]).unwrap();
    assert_eq!(ok, vec![Permission::Read, Permission::Admin]);
    match parse_permissions(&["read", "fly", "swim"]) {
        Err(VaultError::InvalidInput(m)) => assert_eq!(m, "Unknown permission: fly"),
        other => panic!("unexpected {:?}", other),
    }
    assert!(parse_permissions(&["Read"]).is_err());
}
