use vaultkey::config::{default_gpg_home, GpgConfig, SecretEntry, VaultConfig, VaultMeta};
use vaultkey::error::VaultError;

fn config() -> VaultConfig {
    VaultConfig {
        vault: VaultMeta { name: "main".into(), description: None, version: 1 },
        gpg: GpgConfig { key_id: "KEY".into(), armor: true, gpg_home: default_gpg_home() },
        secrets: vec![SecretEntry { name: "db".into(), file: "db.gpg".into(), description: None }],
    }
}

#[test]
fn valid_config_passes() {
    assert!(config().validate().is_ok());
    assert_eq!(default_gpg_home(), "~/.gnupg");
}

#[test]
fn config_errors_in_order() {
    let mut c = config();
    c.vault.name = "  ".into();
    c.gpg.key_id = "".into();
    match c.validate() {
        Err(VaultError::Validation(m)) => assert_eq!(m, "vault.name must not be empty"),
        other => panic!("unexpected {:?}", other),
    }
    let mut c = config();
    c.gpg.key_id = "\t".into();
    match c.validate() {
        Err(VaultError::Validation(m)) => assert_eq!(m, "gpg.key_id must not be empty"),
        other => panic!("unexpected {:?}", other),
    }
    let mut c = config();
    c.secrets.push(SecretEntry { name: "a\"b".into(), file: " ".into(), description: None });
    match c.validate() {
        Err(e) => {
            assert_eq!(e.message(), "Config validation error: secret entry has empty name or file: \"a\\\"b\"")
        }
        other => panic!("unexpected {:?}", other),
    }
}
