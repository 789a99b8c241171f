use vaultkey::export::{export_content, serialize_dotenv, serialize_json, serialize_toml, ExportFormat};
use vaultkey::bundle::Bundle;
use vaultkey::error::VaultError;
use vaultkey::strmap::StrMap;

fn sample_secrets() -> StrMap<String> {
    let mut m = StrMap::new();
    m.insert("API_KEY".to_string(), "abc123".to_string());
    m.insert("DB_PASS".to_string(), "s3cr3t".to_string());
    m
}

#[test]
fn test_format_from_str() {
    assert_eq!(ExportFormat::from_str("json").unwrap(), ExportFormat::Json);
    assert_eq!(ExportFormat::from_str("dotenv").unwrap(), ExportFormat::DotEnv);
    assert_eq!(ExportFormat::from_str("env").unwrap(), ExportFormat::DotEnv);
    assert_eq!(ExportFormat::from_str("toml").unwrap(), ExportFormat::Toml);
    assert!(ExportFormat::from_str("xml").is_err());
}

#[test]
fn test_serialize_dotenv() {
    let secrets = sample_secrets();
    let output = serialize_dotenv(&secrets);
    assert!(output.contains("API_KEY=abc123"));
    assert!(output.contains("DB_PASS=s3cr3t"));
}

#[test]
fn test_serialize_json() {
    let secrets = sample_secrets();
    let output = serialize_json(&secrets).unwrap();
    assert!(output.contains("API_KEY"));
    assert!(output.contains("abc123"));
}

#[test]
fn test_serialize_toml() {
    let secrets = sample_secrets();
    let output = serialize_toml(&secrets).unwrap();
    assert!(output.contains("API_KEY"));
}

#[test]
fn test_dotenv_quotes_values_with_spaces() {
    let mut secrets = StrMap::new();
    secrets.insert("NOTE".to_string(), "hello world".to_string());
    let output = serialize_dotenv(&secrets);
    assert!(output.contains("NOTE=\"hello world\""));
}

#[test]
fn format_names_ignore_case() {
    assert_eq!(ExportFormat::from_str("JSON").unwrap(), ExportFormat::Json);
    assert_eq!(ExportFormat::from_str("Env").unwrap(), ExportFormat::DotEnv);
}

#[test]
fn unknown_format_message() {
    match ExportFormat::from_str("XML") {
        Err(VaultError::InvalidFormat(m)) => {
            assert_eq!(m, "Unsupported export format: 'xml'. Use json, dotenv, or toml.")
        }
        other => panic!("unexpected {:?}", other),
    }
}

#[test]
fn extension_reads_back_as_its_format() {
    for f in [ExportFormat::Json, ExportFormat::DotEnv, ExportFormat::Toml] {
        assert_eq!(ExportFormat::from_str(f.extension()).unwrap(), f);
    }
    assert_eq!(ExportFormat::DotEnv.extension(), "env");
}

#[test]
fn dotenv_lines_sorted_and_escaped() {
    let mut secrets = StrMap::new();
    secrets.insert("B".to_string(), "say \"hi\"".to_string());
    secrets.insert("A".to_string(), "1".to_string());
    secrets.insert("A0".to_string(), "2".to_string());
    let output = serialize_dotenv(&secrets);
    assert_eq!(output, "A0=2\nA=1\nB=\"say \\\"hi\\\"\"\n");
}

#[test]
fn dotenv_of_nothing_is_one_newline() {
    let secrets: StrMap<String> = StrMap::new();
    assert_eq!(serialize_dotenv(&secrets), "\n");
}

#[test]
fn json_is_an_object_sorted_by_key() {
    let mut secrets = StrMap::new();
    secrets.insert("b".to_string(), "2".to_string());
    secrets.insert("a".to_string(), "1".to_string());
    assert_eq!(serialize_json(&secrets).unwrap(), "{\n  \"a\": \"1\",\n  \"b\": \"2\"\n}");
}

#[test]
fn toml_is_a_table() {
    let secrets = sample_secrets();
    assert_eq!(serialize_toml(&secrets).unwrap(), "API_KEY = \"abc123\"\nDB_PASS = \"s3cr3t\"\n");
}

#[test]
fn export_content_follows_format() {
    let mut b = Bundle::new("b", None);
    b.add_secret("K", "v");
    assert_eq!(export_content(&b, &ExportFormat::DotEnv).unwrap(), "K=v\n");
    assert!(export_content(&b, &ExportFormat::Json).unwrap().contains("\"K\": \"v\""));
    assert!(export_content(&b, &ExportFormat::Toml).unwrap().contains("K = \"v\""));
}
