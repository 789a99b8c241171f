use vaultkey::backup::{backup_entry_from_stem, backup_file_name, new_backup_name, prune_count, sort_backups, BackupEntry};

#[test]
fn backup_names() {
    assert_eq!(backup_file_name(Some("pre"), "20240101T000000Z"), "backup_pre_20240101T000000Z.toml");
    assert_eq!(backup_file_name(None, "20240101T000000Z"), "backup_20240101T000000Z.toml");
}

#[test]
fn backup_entry_from_name() {
    let e = backup_entry_from_stem("/b/x.toml", "backup_pre_20240101T000000Z");
    assert_eq!(e.created_at, "20240101T000000Z");
    assert_eq!(e.label.as_deref(), Some("pre"));
    assert_eq!(e.path, "/b/x.toml");
    let e = backup_entry_from_stem("p", "backup_20240101T000000Z");
    assert_eq!(e.created_at, "20240101T000000Z");
    assert_eq!(e.label, None);
    let e = backup_entry_from_stem("p", "plain");
    assert_eq!(e.created_at, "plain");
    let e = backup_entry_from_stem("p", "backup_my_label_T1");
    assert_eq!(e.label.as_deref(), Some("my"));
    assert_eq!(e.created_at, "label_T1");
}

#[test]
fn backups_sorted_by_stamp() {
    let mk = |s: &str| BackupEntry { path: s.to_string(), created_at: s.to_string(), label: None };
    let sorted = sort_backups(vec![mk("20240301"), mk("20240101"), mk("20240201")]);
    let stamps: Vec<&str> = sorted.iter().map(|b| b.created_at.as_str()).collect();
    assert_eq!(stamps, vec!["20240101", "20240201", "20240301"]);
}

#[test]
fn prune_counts() {
    assert_eq!(prune_count(3, 5), 0);
    assert_eq!(prune_count(5, 5), 0);
    assert_eq!(prune_count(7, 5), 2);
}

#[test]
fn backup_name_reads_back_as_label_and_stamp() {
    for label in [Some("nightly"), None] {
        let name = backup_file_name(label, "20240102T030405Z");
        let stem = name.strip_suffix(".toml").unwrap();
        let e = backup_entry_from_stem("dir/x", stem);
        assert_eq!(e.created_at, "20240102T030405Z");
        assert_eq!(e.label.as_deref(), label);
    }
}

#[test]
fn new_backup_name_uses_a_compact_utc_stamp() {
    let (stamp, name) = new_backup_name(Some("pre"));
    assert_eq!(stamp.len(), 16);
    assert_eq!(&stamp[8..9], "T");
    assert!(stamp.ends_with('Z'));
    assert_eq!(name, format!("backup_pre_{}.toml", stamp));
}
