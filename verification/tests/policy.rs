use vaultkey::error::VaultError;
use vaultkey::policy::{cmd_policy_check, cmd_policy_list, cmd_policy_show, Policy};
use vaultkey::store::PolicyStore;

fn strict() -> Policy {
    let mut p = Policy::new("strict");
    p.forbidden_keys = vec!["ROOT".to_string()];
    p.allowed_key_prefixes = vec!["APP_".to_string(), "DB_".to_string()];
    p.max_secret_length = Some(5);
    p.required_tags = vec!["env".to_string(), "owner".to_string()];
    p
}

#[test]
fn validate_key_rules() {
    let p = strict();
    assert!(p.validate_key("APP_X").is_ok());
    match p.validate_key("ROOT") {
        Err(VaultError::PolicyViolation(m)) => assert_eq!(m, "Key 'ROOT' is forbidden by policy 'strict'"),
        other => panic!("unexpected {:?}", other),
    }
    match p.validate_key("OTHER") {
        Err(VaultError::PolicyViolation(m)) => {
            assert_eq!(m, "Key 'OTHER' does not match any allowed prefix in policy 'strict'")
        }
        other => panic!("unexpected {:?}", other),
    }
    assert!(Policy::new("open").validate_key("anything").is_ok());
}

#[test]
fn validate_length_in_bytes() {
    let p = strict();
    assert!(p.validate_secret_length("12345").is_ok());
    assert!(p.validate_secret_length("ééé").is_err());
    match p.validate_secret_length("123456") {
        Err(VaultError::PolicyViolation(m)) => {
            assert_eq!(m, "Secret value exceeds max length 5 defined in policy 'strict'")
        }
        other => panic!("unexpected {:?}", other),
    }
}

#[test]
fn validate_tags_first_missing() {
    let p = strict();
    assert!(p.validate_tags(&vec!["owner".to_string(), "env".to_string()]).is_ok());
    match p.validate_tags(&vec!["owner".to_string()]) {
        Err(VaultError::PolicyViolation(m)) => assert_eq!(m, "Required tag 'env' missing per policy 'strict'"),
        other => panic!("unexpected {:?}", other),
    }
}

#[test]
fn policy_check_in_order() {
    let p = strict();
    let tags = vec!["env".to_string(), "owner".to_string()];
    assert!(cmd_policy_check(&p, "DB_X", "abc", &tags).is_ok());
    assert!(cmd_policy_check(&p, "ROOT", "123456", &vec![]).unwrap_err().message().contains("forbidden"));
    assert!(cmd_policy_check(&p, "DB_X", "123456", &vec![]).unwrap_err().message().contains("max length"));
}

#[test]
fn policy_show_and_list() {
    let p = strict();
    assert_eq!(
        cmd_policy_show(&p),
        "Policy: strict\n  Required tags    : env, owner\n  Forbidden keys   : ROOT\n  Max secret length: 5\n  Allowed prefixes : APP_, DB_"
    );
    let open = Policy::new("open");
    assert_eq!(
        cmd_policy_show(&open),
        "Policy: open\n  Required tags    : \n  Forbidden keys   : \n  Max secret length: unlimited\n  Allowed prefixes : any"
    );
    assert_eq!(cmd_policy_list(&[]), "No policies defined.");
    assert_eq!(cmd_policy_list(&[p, open]), "- strict\n- open");
}

#[test]
fn policy_store_operations() {
    let store = PolicyStore::new("/tmp/p.json");
    assert_eq!(store.path(), "/tmp/p.json");
    let mut list = vec![Policy::new("a"), Policy::new("b")];
    let mut b2 = Policy::new("b");
    b2.max_secret_length = Some(1);
    store.upsert(&mut list, b2);
    assert_eq!(list.len(), 2);
    assert_eq!(list[1].max_secret_length, Some(1));
    store.upsert(&mut list, Policy::new("c"));
    assert_eq!(list.len(), 3);
    assert_eq!(store.find(&list, "b").unwrap().max_secret_length, Some(1));
    assert!(store.find(&list, "z").is_none());
    assert!(store.remove(&mut list, "a"));
    assert!(!store.remove(&mut list, "a"));
    assert_eq!(list.len(), 2);
}
