use vaultkey::bundle::Bundle;
use vaultkey::cmds::{parse_overrides, DiffCmd, DiffOutputFormat, RotateCmdArgs, SearchCmd, TemplateCmdArgs};
use vaultkey::diff::diff_bundles;
use vaultkey::error::VaultError;
use vaultkey::search::SearchResult;
use vaultkey::strmap::StrMap;

#[test]
fn diff_text_report() {
    let mut a = Bundle::new("a", None);
    a.add_secret("X", "1");
    a.add_secret("Y", "2");
    let mut b = Bundle::new("b", None);
    b.add_secret("Y", "3");
    b.add_secret("Z", "4");
    let d = diff_bundles(&a, &b);
    let cmd = DiffCmd { vault_a: "a".into(), vault_b: "b".into(), show_values: true, output_format: DiffOutputFormat::Text };
    assert_eq!(cmd.text_lines(&d), vec!["Diff: 'a' vs 'b'", "", "  [-] X = 1", "  [~] Y : 2 -> 3", "  [+] Z = 4"]);
    let quiet = DiffCmd { show_values: false, ..cmd };
    assert_eq!(quiet.text_lines(&d), vec!["Diff: 'a' vs 'b'", "", "  [-] X", "  [~] Y", "  [+] Z"]);
}

#[test]
fn search_report() {
    let cmd = SearchCmd::new("v.toml", "db");
    assert!(!cmd.case_sensitive && !cmd.keys_only);
    assert_eq!(cmd.report_lines(&vec![]), vec!["No secrets found matching 'db'"]);
    let results = vec![
        SearchResult { key: "DB".into(), value: Some("x".into()), matched_in_key: true, matched_in_value: false },
        SearchResult { key: "K".into(), value: None, matched_in_key: true, matched_in_value: true },
    ];
    let lines = cmd.report_lines(&results);
    assert_eq!(lines[0], "Found 2 result(s) for 'db':");
    assert_eq!(lines[1], "-".repeat(40));
    assert_eq!(lines[2], "  DB = x [matched in: key]");
    assert_eq!(lines[3], "  K [matched in: key, value]");
}

#[test]
fn rotate_summaries() {
    let mut a = RotateCmdArgs { vault: "v".into(), old_recipient: "o".into(), new_recipient: "n".into(), dry_run: true, audit_path: None };
    assert_eq!(a.summary(3), "[dry-run] Would rotate 3 secret(s) in 'v' from 'o' to 'n'");
    assert_eq!(a.audit_path_or_default(), "audit.log");
    a.dry_run = false;
    a.audit_path = Some("x.log".into());
    assert_eq!(a.summary(1), "Rotated 1 secret(s) in 'v' to new recipient 'n'");
    assert_eq!(a.audit_path_or_default(), "x.log");
}

#[test]
fn overrides_parse() {
    let ok = parse_overrides(&["A=1".to_string(), "B=x=y".to_string(), "C=".to_string()]).unwrap();
    assert_eq!(ok, vec![("A".into(), "1".into()), ("B".into(), "x=y".into()), ("C".into(), "".into())]);
    match parse_overrides(&["A=1".to_string(), "=v".to_string(), "nokey".to_string()]) {
        Err(VaultError::Generic(m)) => assert_eq!(m, "Invalid override '=v': missing key"),
        other => panic!("unexpected {:?}", other),
    }
    match parse_overrides(&["novalue".to_string()]) {
        Err(VaultError::Generic(m)) => assert_eq!(m, "Invalid override 'novalue': missing '='"),
        other => panic!("unexpected {:?}", other),
    }
    assert!(parse_overrides(&["".to_string()]).is_err());
}

#[test]
fn template_output_renders_with_overrides() {
    let mut secrets = StrMap::new();
    secrets.insert("USER".to_string(), "ann".to_string());
    secrets.insert("PASS".to_string(), "pw".to_string());
    let args = TemplateCmdArgs {
        template_path: "t".into(),
        overrides: vec![("PASS".into(), "override".into())],
        output_path: None,
        list_keys: false,
    };
    assert_eq!(args.output("{{{ USER }}}:{{{PASS}}}", &secrets).unwrap(), "ann:override");
    let list = TemplateCmdArgs { list_keys: true, ..args };
    assert_eq!(list.output("{{{a}}} {{{ b }}} {{{}}}", &secrets).unwrap(), "a\nb");
}
