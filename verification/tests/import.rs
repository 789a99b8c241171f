use vaultkey::error::VaultError;
use vaultkey::import::{check_manifest, default_vault_path, env_import_pairs, import_kind, ImportKind, ImportManifest};

#[test]
fn env_file_pairs() {
    let content = "# comment\n\nA=1\n  B = \"two words\" \nnoequals\nC==x\n   #x=y\nD=\n";
    let pairs = env_import_pairs(content);
    let got: Vec<(&str, &str)> = pairs.iter().map(|(k, v)| (k.as_str(), v.as_str())).collect();
    assert_eq!(got, vec![("A", "1"), ("B", "two words"), ("C", "=x"), ("D", "")]);
}

#[test]
fn manifest_format_check() {
    let m = ImportManifest { format: "vaultkey".into(), version: Some(1), secrets: vec![] };
    assert!(check_manifest(&m).is_ok());
    let bad = ImportManifest { format: "other".into(), version: None, secrets: vec![] };
    match check_manifest(&bad) {
        Err(VaultError::Config(m)) => assert_eq!(m, "Unsupported import format: other"),
        other => panic!("unexpected {:?}", other),
    }
}

#[test]
fn import_kinds() {
    assert_eq!(import_kind("toml").unwrap(), ImportKind::Toml);
    assert_eq!(import_kind("env").unwrap(), ImportKind::Env);
    match import_kind("yaml") {
        Err(VaultError::Config(m)) => assert_eq!(m, "Unknown import format: 'yaml'. Use 'toml' or 'env'."),
        other => panic!("unexpected {:?}", other),
    }
    assert_eq!(default_vault_path(), "vault.toml");
}
