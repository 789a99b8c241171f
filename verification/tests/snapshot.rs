use vaultkey::bundle::Bundle;
use vaultkey::snapshot::{snapshot_file_name, sort_snapshots, Snapshot, SnapshotDiff};

fn bundle(pairs: &[(&str, &str)]) -> Bundle {
    let mut b = Bundle::new("b", None);
    for (k, v) in pairs {
        b.add_secret(k, v);
    }
    b
}

#[test]
fn snapshot_new_at_id() {
    let s = Snapshot::new_at(&bundle(&[("A", "1")]), Some("l".into()), 1700000000);
    assert_eq!(s.id, "1700000000");
    assert_eq!(snapshot_file_name(&s), "1700000000.json");
    assert_eq!(s.entries.get("A").unwrap(), "1");
    assert_eq!(Snapshot::new_at(&bundle(&[]), None, -5).id, "-5");
    let now = Snapshot::new(&bundle(&[]), None);
    assert_eq!(now.id, now.created_at.to_string());
}

#[test]
fn snapshot_diff_lists_changes() {
    let old = Snapshot::new_at(&bundle(&[("A", "1"), ("B", "2"), ("C", "3")]), None, 1);
    let new = Snapshot::new_at(&bundle(&[("B", "2"), ("C", "30"), ("D", "4")]), None, 2);
    let d = new.diff_from(&old);
    assert_eq!(d.len(), 3);
    assert_eq!(d.get("C").unwrap(), &SnapshotDiff::Modified("3".into(), "30".into()));
    assert_eq!(d.get("D").unwrap(), &SnapshotDiff::Added("4".into()));
    assert_eq!(d.get("A").unwrap(), &SnapshotDiff::Removed);
    assert!(d.get("B").is_none());
    assert_eq!(d.key_at(0), "C");
    assert_eq!(d.key_at(2), "A");
    assert!(new.diff_from(&new).is_empty());
}

#[test]
fn snapshots_sorted_by_time() {
    let b = bundle(&[]);
    let s = sort_snapshots(vec![Snapshot::new_at(&b, None, 3), Snapshot::new_at(&b, None, -1), Snapshot::new_at(&b, None, 2)]);
    let ids: Vec<&str> = s.iter().map(|x| x.id.as_str()).collect();
    assert_eq!(ids, vec!["-1", "2", "3"]);
}
