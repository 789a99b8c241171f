//! Backups of a vault file: their file names, how an entry is read back from a
//! name, their order, and how many to prune.

use vstd::prelude::*;
use vstd::string::StringExecFns;
use crate::clock::{compact_text, format_compact, now_seconds};
use crate::text::{char_views, chars_of, find_from, find_from_exec, i64_to_string, int_text, occurs_at, owned, push_str, sort_indices, sorted_order, string_of, sub_string};

verus! {

/// A backup file: its path, its time stamp and its label.
#[derive(Debug, Clone, PartialEq, Eq)]
pub struct BackupEntry {
    pub path: String,
    pub created_at: String,
    pub label: Option<String>,
}

/// The file name of a backup: `backup_<label>_<stamp>.toml`, or
/// `backup_<stamp>.toml` without a label.
pub open spec fn backup_name(label: Option<Seq<char>>, stamp: Seq<char>) -> Seq<char> {
    match label {
        Some(l) => "backup_"@ + l + "_"@ + stamp + ".toml"@,
        None => "backup_"@ + stamp + ".toml"@,
    }
}

/// The parts of `s` split at `_` at most twice (`str::splitn(3, '_')`).
pub open spec fn stem_parts(s: Seq<char>) -> Seq<Seq<char>> {
    match find_from(s, "_"@, 0) {
        None => seq![s],
        Some(i) => {
            let rest = s.skip(i + 1);
            match find_from(rest, "_"@, 0) {
                None => seq![s.take(i), rest],
                Some(j) => seq![s.take(i), rest.take(j), rest.skip(j + 1)],
            }
        },
    }
}

/// The name of a backup file from its label (if any) and time stamp.
pub fn backup_file_name(label: Option<&str>, timestamp: &str) -> (r: String)
    ensures
        r@ == backup_name(match label {
            Some(l) => Some(l@),
            None => None,
        }, timestamp@),
{
    let mut s = String::from_str("backup_");
    match label {
        Some(l) => {
            push_str(&mut s, l);
            push_str(&mut s, "_");
        },
        None => {},
    }
    push_str(&mut s, timestamp);
    push_str(&mut s, ".toml");
    s
}

/// The stamp written for a backup made `secs` seconds after the Unix epoch:
/// UTC as `%Y%m%dT%H%M%SZ`, or the number of seconds when `chrono` cannot
/// write it.
pub open spec fn backup_stamp(secs: i64) -> Seq<char> {
    match compact_text(secs) {
        Some(t) => t,
        None => int_text(secs as int),
    }
}

/// The time stamp of a backup made now (see `backup_stamp`) and its file
/// name: the stamp depends on the time of the call; the name is the one that
/// `backup_file_name` gives for that stamp.
pub fn new_backup_name(label: Option<&str>) -> (r: (String, String))
    ensures
        exists|secs: i64| secs >= 0 && r.0@ == #[trigger] backup_stamp(secs),
        r.1@ == backup_name(match label {
            Some(l) => Some(l@),
            None => None,
        }, r.0@),
{
    let secs = now_seconds();
    let stamp = match format_compact(secs) {
        Some(t) => t,
        None => i64_to_string(secs),
    };
    assert(stamp@ == backup_stamp(secs));
    let name = backup_file_name(label, stamp.as_str());
    (stamp, name)
}

/// The first `_` in `cs` at or after `from`, if any.
fn find_underscore(cs: &Vec<char>, from: usize) -> (r: Option<usize>)
    requires
        from <= cs@.len(),
    ensures
        match r {
            Some(i) => find_from(cs@.skip(from as int), "_"@, 0) == Some(i - from) && from <= i < cs@.len(),
            None => find_from(cs@.skip(from as int), "_"@, 0) is None,
        },
{
    proof { reveal_strlit("_"); }
    let rest = sub_string(cs, from, cs.len());
    let rc = chars_of(rest.as_str());
    let mut us: Vec<char> = Vec::new();
    us.push('_');
    assert(us@ =~= "_"@);
    assert(rc@ =~= cs@.skip(from as int));
    match find_from_exec(&rc, &us, 0) {
        Some(i) => {
            proof { crate::text::lemma_find_from_some(rc@, us@, 0); }
            Some(from + i)
        },
        None => None,
    }
}

/// The backup entry for the file at `path` whose name without extension is
/// `stem`: the last `_`-part (at most three parts) is the time stamp, and the
/// middle one, when there are three, the label.
pub fn backup_entry_from_stem(path: &str, stem: &str) -> (r: BackupEntry)
    ensures
        r.path@ == path@,
        r.created_at@ == stem_parts(stem@).last(),
        stem_parts(stem@).len() == 3 ==> (r.label matches Some(l) && l@ == stem_parts(stem@)[1]),
        stem_parts(stem@).len() != 3 ==> r.label is None,
{
    let cs = chars_of(stem);
    let _n = cs.len();
    assert(cs@.skip(0) =~= stem@);
    match find_underscore(&cs, 0) {
        None => BackupEntry { path: owned(path), created_at: owned(stem), label: None },
        Some(i) => {
            let ghost rest = stem@.skip(i + 1);
            match find_underscore(&cs, i + 1) {
                None => {
                    let created = sub_string(&cs, i + 1, cs.len());
                    assert(created@ =~= rest);
                    BackupEntry { path: owned(path), created_at: created, label: None }
                },
                Some(j) => {
                    let label = sub_string(&cs, i + 1, j);
                    let created = sub_string(&cs, j + 1, cs.len());
                    assert(label@ =~= rest.take(j - (i + 1)));
                    assert(created@ =~= rest.skip(j - (i + 1) + 1));
                    BackupEntry { path: owned(path), created_at: created, label: Some(label) }
                },
            }
        },
    }
}

/// The time stamps of the backups, in order.
pub open spec fn stamps_of(s: Seq<BackupEntry>) -> Seq<Seq<char>> {
    s.map_values(|b: BackupEntry| b.created_at@)
}

/// The backups in order of time stamp (a stable sort by text).
pub fn sort_backups(entries: Vec<BackupEntry>) -> (r: Vec<BackupEntry>)
    ensures
        exists|order: Seq<usize>| #[trigger] sorted_order(stamps_of(entries@), order)
            && r@.len() == order.len()
            && forall|i: int| 0 <= i < r@.len() ==> #[trigger] r@[i] == entries@[order[i] as int],
{
    let ghost orig = entries@;
    let ghost stamps = stamps_of(orig);
    let mut keys: Vec<Vec<char>> = Vec::new();
    let mut i: usize = 0;
    while i < entries.len()
        invariant
            orig == entries@,
            stamps == stamps_of(orig),
            i <= orig.len(),
            char_views(keys@) == stamps.take(i as int),
        decreases orig.len() - i,
    {
        let ghost before = keys@;
        let cs = chars_of(entries[i].created_at.as_str());
        keys.push(cs);
        assert(char_views(before.push(cs)) =~= char_views(before).push(cs@));
        i = i + 1;
        assert(char_views(keys@) =~= stamps.take(i as int));
    }
    assert(char_views(keys@) =~= stamps);
    let order = sort_indices(&keys);
    let mut slots: Vec<Option<BackupEntry>> = Vec::new();
    let mut rest = entries;
    let n0 = rest.len();
    let mut k: usize = 0;
    while rest.len() > 0
        invariant
            n0 == orig.len(),
            k + rest@.len() == orig.len(),
            rest@ == orig.skip(k as int),
            slots@.len() == k,
            forall|a: int| 0 <= a < k ==> slots@[a] == Some(orig[a]),
        decreases rest@.len(),
    {
        let s = rest.remove(0);
        assert(s == orig[k as int]);
        slots.push(Some(s));
        assert(rest@ =~= orig.skip(k + 1));
        k = k + 1;
    }
    let mut out: Vec<BackupEntry> = Vec::new();
    let mut j: usize = 0;
    while j < order.len()
        invariant
            sorted_order(stamps, order@),
            stamps.len() == orig.len(),
            slots@.len() == orig.len(),
            j <= order@.len(),
            out@.len() == j,
            forall|a: int| 0 <= a < j ==> out@[a] == orig[order@[a] as int],
            forall|a: int| 0 <= a < order@.len() && j <= a ==> slots@[order@[a] as int] == Some(orig[order@[a] as int]),
        decreases order@.len() - j,
    {
        let p = order[j];
        proof {
            assert(slots@[order@[j as int] as int] == Some(orig[order@[j as int] as int]));
        }
        let ghost before = slots@;
        let taken = slots[p].take();
        proof {
            assert(slots@ == before.update(p as int, None));
            assert forall|a: int| 0 <= a < order@.len() && j + 1 <= a implies slots@[order@[a] as int] == Some(
                orig[order@[a] as int],
            ) by {
                assert(order@[a] != order@[j as int]);
            }
        }
        match taken {
            Some(b) => {
                out.push(b);
            },
            None => {},
        }
        j = j + 1;
    }
    assert(sorted_order(stamps, order@));
    assert(forall|i: int| 0 <= i < out@.len() ==> #[trigger] out@[i] == orig[order@[i] as int]);
    out
}

/// How many backups to remove so that `keep` remain: none when there are no
/// more than `keep`.
pub fn prune_count(total: usize, keep: usize) -> (r: usize)
    ensures
        total <= keep ==> r == 0,
        total > keep ==> r == total - keep,
{
    if total <= keep {
        0
    } else {
        total - keep
    }
}

/// No `_` in `s` from `i` on.
pub open spec fn no_underscore_from(s: Seq<char>, i: int) -> bool {
    forall|j: int| i <= j < s.len() ==> s[j] != '_'
}

proof fn lemma_underscore_at(s: Seq<char>, i: int, k: int)
    requires
        0 <= i <= k < s.len(),
        s[k] == '_',
        forall|j: int| i <= j < k ==> s[j] != '_',
    ensures
        find_from(s, "_"@, i) == Some(k),
    decreases k - i,
{
    reveal_strlit("_");
    assert(occurs_at(s, "_"@, i) <==> s[i] == '_') by {
        if s[i] == '_' {
            assert(s.subrange(i, i + 1) =~= "_"@);
        }
        if occurs_at(s, "_"@, i) {
            assert(s.subrange(i, i + 1)[0] == s[i]);
        }
    }
    if i < k {
        lemma_underscore_at(s, i + 1, k);
    }
}

proof fn lemma_no_underscore(s: Seq<char>, i: int)
    requires
        0 <= i <= s.len(),
        no_underscore_from(s, i),
    ensures
        find_from(s, "_"@, i) is None,
    decreases s.len() - i,
{
    reveal_strlit("_");
    if i < s.len() {
        assert(!occurs_at(s, "_"@, i)) by {
            if occurs_at(s, "_"@, i) {
                assert(s.subrange(i, i + 1)[0] == s[i]);
            }
        }
        lemma_no_underscore(s, i + 1);
    }
}

/// Law: a backup's file name is its stem and `.toml`, and the stem reads back
/// (as a listing reads it) as the backup's time stamp and label, when neither
/// holds `_`.
pub proof fn law_backup_name_reads_back(label: Option<Seq<char>>, stamp: Seq<char>)
    requires
        no_underscore_from(stamp, 0),
        label matches Some(l) ==> no_underscore_from(l, 0),
    ensures
        ({
            let name = backup_name(label, stamp);
            let stem = name.take(name.len() - 5);
            &&& name == stem + ".toml"@
            &&& stem_parts(stem).last() == stamp
            &&& match label {
                Some(l) => stem_parts(stem).len() == 3 && stem_parts(stem)[1] == l,
                None => stem_parts(stem).len() == 2,
            }
        }),
{
    reveal_strlit("backup_");
    reveal_strlit("_");
    reveal_strlit(".toml");
    let name = backup_name(label, stamp);
    let stem = name.take(name.len() - 5);
    let head = "backup_"@;
    match label {
        Some(l) => {
            assert(stem =~= head + l + "_"@ + stamp);
            assert(name =~= stem + ".toml"@);
            lemma_underscore_at(stem, 0, 6);
            let rest = stem.skip(7);
            assert(rest =~= l + "_"@ + stamp);
            lemma_underscore_at(rest, 0, l.len() as int);
            assert(rest.take(l.len() as int) =~= l);
            assert(rest.skip(l.len() as int + 1) =~= stamp);
        },
        None => {
            assert(stem =~= head + stamp);
            assert(name =~= stem + ".toml"@);
            lemma_underscore_at(stem, 0, 6);
            let rest = stem.skip(7);
            assert(rest =~= stamp);
            lemma_no_underscore(rest, 0);
        },
    }
}

} // verus!
