//! Snapshots of a bundle's secrets, and what changed between two snapshots.

use vstd::prelude::*;
use vstd::string::StringExecFns;
use crate::bundle::Bundle;
use crate::clock::now_seconds;
use crate::strmap::{StrMap, has_key, key_index, keys_by_presence, keys_of, lemma_keys_by_presence, lemma_lookup_at, lookup, unique_keys};
use crate::text::{i64_to_string, int_text, owned, push_str, sort_by_time, sorted_by_time, str_eq};

verus! {

/// The secrets of a bundle at one moment: an id (the time in seconds, as
/// text), an optional label, the time (seconds since the Unix epoch, UTC) and
/// the secrets.
pub struct Snapshot {
    pub id: String,
    pub label: Option<String>,
    pub created_at: i64,
    pub entries: StrMap<String>,
}

/// What became of a key from an earlier snapshot to this one.
#[derive(Debug, Clone, PartialEq, Eq)]
pub enum SnapshotDiff {
    /// Only in this snapshot, with its value.
    Added(String),
    /// Only in the earlier snapshot.
    Removed,
    /// In both with different values: the earlier value, then this one.
    Modified(String, String),
}

impl DeepView for SnapshotDiff {
    type V = SnapshotDiff;

    open spec fn deep_view(&self) -> SnapshotDiff {
        *self
    }
}

/// The keys of `mine`, in order, whose value in `theirs` is missing or different.
pub open spec fn changed_keys(mine: Seq<(Seq<char>, Seq<char>)>, theirs: Seq<(Seq<char>, Seq<char>)>) -> Seq<Seq<char>>
    decreases mine.len(),
{
    if mine.len() == 0 {
        Seq::empty()
    } else {
        let rest = changed_keys(mine.drop_last(), theirs);
        if lookup(theirs, mine.last().0) != Some(mine.last().1) {
            rest.push(mine.last().0)
        } else {
            rest
        }
    }
}

/// `d` describes a key whose value here is `mine` and earlier was `theirs`.
pub open spec fn snap_describes(d: SnapshotDiff, mine: Option<Seq<char>>, theirs: Option<Seq<char>>) -> bool {
    match mine {
        Some(v) => match theirs {
            None => d matches SnapshotDiff::Added(x) && x@ == v,
            Some(o) => d matches SnapshotDiff::Modified(a, b) && a@ == o && b@ == v,
        },
        None => theirs is Some && d is Removed,
    }
}

/// `r` is the change list of `mine` against the earlier `theirs`: the changed
/// keys of `mine` in order, then the keys only in `theirs` in order.
pub open spec fn is_snapshot_diff(r: Seq<(Seq<char>, SnapshotDiff)>, mine: Seq<(Seq<char>, Seq<char>)>, theirs: Seq<(Seq<char>, Seq<char>)>) -> bool {
    &&& keys_of(r) == changed_keys(mine, theirs) + keys_by_presence(mine, theirs, false)
    &&& forall|i: int| 0 <= i < r.len() ==> snap_describes(#[trigger] r[i].1, lookup(mine, r[i].0), lookup(theirs, r[i].0))
}

proof fn lemma_changed_keys(mine: Seq<(Seq<char>, Seq<char>)>, theirs: Seq<(Seq<char>, Seq<char>)>)
    ensures
        forall|k: int| 0 <= k < changed_keys(mine, theirs).len() ==> has_key(mine, #[trigger] changed_keys(mine, theirs)[k]),
    decreases mine.len(),
{
    if mine.len() > 0 {
        let mp = mine.drop_last();
        lemma_changed_keys(mp, theirs);
        let ks = changed_keys(mine, theirs);
        assert forall|k: int| 0 <= k < ks.len() implies has_key(mine, #[trigger] ks[k]) by {
            if k < changed_keys(mp, theirs).len() {
                let w = choose|w: int| 0 <= w < mp.len() && mp[w].0 == ks[k];
                assert(mine[w] == mp[w]);
            } else {
                assert(mine[mine.len() - 1].0 == ks[k]);
            }
        }
    }
}

/// A key is not among the keys of `r` when `r`'s keys are all keys of a list
/// that lacks it.
proof fn lemma_not_in_keys(r: Seq<(Seq<char>, SnapshotDiff)>, ks: Seq<Seq<char>>, key: Seq<char>)
    requires
        keys_of(r) == ks,
        !ks.contains(key),
    ensures
        !has_key(r, key),
{
    if has_key(r, key) {
        let q = choose|q: int| 0 <= q < r.len() && r[q].0 == key;
        assert(keys_of(r)[q] == key);
    }
}

impl Snapshot {
    /// A snapshot of the bundle's secrets taken at time `now`, with `now` as its id.
    pub fn new_at(bundle: &Bundle, label: Option<String>, now: i64) -> (r: Snapshot)
        ensures
            r.id@ == int_text(now as int),
            r.label == label,
            r.created_at == now,
            r.entries@ == bundle.secrets@,
    {
        Snapshot { id: i64_to_string(now), label, created_at: now, entries: bundle.secrets.copy() }
    }

    /// A snapshot of the bundle's secrets taken now.
    pub fn new(bundle: &Bundle, label: Option<String>) -> (r: Snapshot)
        ensures
            r.id@ == int_text(r.created_at as int),
            r.label == label,
            r.entries@ == bundle.secrets@,
    {
        Snapshot::new_at(bundle, label, now_seconds())
    }

    /// What changed from the earlier snapshot `other` to this one: keys added
    /// or modified here, in this snapshot's order, then keys removed since,
    /// in `other`'s order. Unchanged keys are left out.
    pub fn diff_from(&self, other: &Snapshot) -> (r: StrMap<SnapshotDiff>)
        ensures
            is_snapshot_diff(r@, self.entries@, other.entries@),
    {
        let ghost mine = self.entries@;
        let ghost theirs = other.entries@;
        proof {
            use_type_invariant(&self.entries);
            use_type_invariant(&other.entries);
        }
        let mut changes: StrMap<SnapshotDiff> = StrMap::new();
        let n = self.entries.len();
        let mut i: usize = 0;
        assert(mine.take(0) =~= Seq::<(Seq<char>, Seq<char>)>::empty());
        assert(keys_of(changes@) =~= Seq::<Seq<char>>::empty());
        while i < n
            invariant
                mine == self.entries@,
                theirs == other.entries@,
                unique_keys(mine),
                n == mine.len(),
                i <= n,
                keys_of(changes@) == changed_keys(mine.take(i as int), theirs),
                forall|j: int| 0 <= j < changes@.len() ==> snap_describes(#[trigger] changes@[j].1,
                    lookup(mine, changes@[j].0), lookup(theirs, changes@[j].0)),
            decreases n - i,
        {
            let key = self.entries.key_at(i);
            let val = self.entries.value_at(i);
            let ghost pre = mine.take(i as int);
            assert(mine.take(i + 1).drop_last() =~= pre);
            assert(mine.take(i + 1).last() == mine[i as int]);
            proof {
                lemma_lookup_at(mine, i as int);
                lemma_changed_keys(pre, theirs);
            }
            let change = match other.entries.get(key.as_str()) {
                None => Some(SnapshotDiff::Added(owned(val.as_str()))),
                Some(o) => if str_eq(o.as_str(), val.as_str()) {
                    None
                } else {
                    Some(SnapshotDiff::Modified(owned(o.as_str()), owned(val.as_str())))
                },
            };
            match change {
                Some(d) => {
                    proof {
                        assert(!changed_keys(pre, theirs).contains(key@)) by {
                            if changed_keys(pre, theirs).contains(key@) {
                                let k = choose|k: int| 0 <= k < changed_keys(pre, theirs).len()
                                    && changed_keys(pre, theirs)[k] == key@;
                                assert(has_key(pre, changed_keys(pre, theirs)[k]));
                                let w = choose|w: int| 0 <= w < pre.len() && pre[w].0 == key@;
                                assert(mine[w].0 == mine[i as int].0);
                            }
                        }
                        lemma_not_in_keys(changes@, changed_keys(pre, theirs), key@);
                    }
                    let ghost before = changes@;
                    let ghost dd = d;
                    changes.insert(owned(key.as_str()), d);
                    assert(changes@ == before.push((key@, dd)));
                    assert(keys_of(changes@) =~= keys_of(before).push(key@));
                },
                None => {},
            }
            i = i + 1;
        }
        assert(mine.take(n as int) =~= mine);
        let ghost first = changed_keys(mine, theirs);
        proof {
            lemma_changed_keys(mine, theirs);
        }
        let m = other.entries.len();
        let mut j: usize = 0;
        assert(theirs.take(0) =~= Seq::<(Seq<char>, Seq<char>)>::empty());
        assert(first + keys_by_presence(mine, theirs.take(0), false) =~= first);
        while j < m
            invariant
                mine == self.entries@,
                theirs == other.entries@,
                unique_keys(mine),
                unique_keys(theirs),
                m == theirs.len(),
                j <= m,
                first == changed_keys(mine, theirs),
                forall|k: int| 0 <= k < first.len() ==> has_key(mine, #[trigger] first[k]),
                keys_of(changes@) == first + keys_by_presence(mine, theirs.take(j as int), false),
                forall|q: int| 0 <= q < changes@.len() ==> snap_describes(#[trigger] changes@[q].1,
                    lookup(mine, changes@[q].0), lookup(theirs, changes@[q].0)),
            decreases m - j,
        {
            let key = other.entries.key_at(j);
            let ghost pre = keys_by_presence(mine, theirs.take(j as int), false);
            assert(theirs.take(j + 1).drop_last() =~= theirs.take(j as int));
            assert(theirs.take(j + 1).last() == theirs[j as int]);
            if !self.entries.contains_key(key.as_str()) {
                proof {
                    lemma_lookup_at(theirs, j as int);
                    lemma_keys_by_presence(mine, theirs.take(j as int), false);
                    assert(!(first + pre).contains(key@)) by {
                        if (first + pre).contains(key@) {
                            let k = choose|k: int| 0 <= k < (first + pre).len() && (first + pre)[k] == key@;
                            if k < first.len() {
                                assert(has_key(mine, first[k]));
                            } else {
                                assert(pre[k - first.len()] == key@);
                                assert(has_key(theirs.take(j as int), pre[k - first.len()]));
                                let w = choose|w: int| 0 <= w < theirs.take(j as int).len()
                                    && theirs.take(j as int)[w].0 == key@;
                                assert(theirs[w].0 == theirs[j as int].0);
                            }
                        }
                    }
                    lemma_not_in_keys(changes@, first + pre, key@);
                }
                let ghost before = changes@;
                changes.insert(owned(key.as_str()), SnapshotDiff::Removed);
                assert(changes@ == before.push((key@, SnapshotDiff::Removed)));
                assert(keys_of(changes@) =~= keys_of(before).push(key@));
                assert(keys_by_presence(mine, theirs.take(j + 1), false) == pre.push(key@));
                assert(keys_of(changes@) =~= first + keys_by_presence(mine, theirs.take(j + 1), false));
            } else {
                assert(keys_by_presence(mine, theirs.take(j + 1), false) == pre);
            }
            j = j + 1;
        }
        assert(theirs.take(m as int) =~= theirs);
        changes
    }
}

/// The file a snapshot is saved in: its id with `.json`.
pub fn snapshot_file_name(snapshot: &Snapshot) -> (r: String)
    ensures
        r@ == snapshot.id@ + ".json"@,
{
    let mut s = owned(snapshot.id.as_str());
    push_str(&mut s, ".json");
    s
}

/// The creation times of the snapshots, in order.
pub open spec fn snapshot_times(s: Seq<Snapshot>) -> Seq<i64> {
    s.map_values(|x: Snapshot| x.created_at)
}

/// The snapshots in order of creation time (a stable sort).
pub fn sort_snapshots(snapshots: Vec<Snapshot>) -> (r: Vec<Snapshot>)
    ensures
        exists|order: Seq<usize>| #[trigger] sorted_by_time(snapshot_times(snapshots@), order)
            && r@.len() == order.len()
            && forall|i: int| 0 <= i < r@.len() ==> #[trigger] r@[i] == snapshots@[order[i] as int],
{
    let ghost orig = snapshots@;
    let ghost times = snapshot_times(orig);
    let mut stamps: Vec<i64> = Vec::new();
    let mut i: usize = 0;
    while i < snapshots.len()
        invariant
            orig == snapshots@,
            times == snapshot_times(orig),
            i <= orig.len(),
            stamps@ == times.take(i as int),
        decreases orig.len() - i,
    {
        stamps.push(snapshots[i].created_at);
        i = i + 1;
        assert(stamps@ =~= times.take(i as int));
    }
    assert(stamps@ =~= times);
    let order = sort_by_time(&stamps);
    let mut slots: Vec<Option<Snapshot>> = Vec::new();
    let mut rest = snapshots;
    let n0 = rest.len();
    let mut k: usize = 0;
    while rest.len() > 0
        invariant
            n0 == orig.len(),
            k + rest@.len() == orig.len(),
            rest@ == orig.skip(k as int),
            slots@.len() == k,
            forall|a: int| 0 <= a < k ==> slots@[a] == Some(orig[a]),
        decreases rest@.len(),
    {
        let s = rest.remove(0);
        assert(s == orig[k as int]);
        slots.push(Some(s));
        assert(rest@ =~= orig.skip(k + 1));
        k = k + 1;
    }
    let mut out: Vec<Snapshot> = Vec::new();
    let mut j: usize = 0;
    while j < order.len()
        invariant
            sorted_by_time(times, order@),
            times.len() == orig.len(),
            slots@.len() == orig.len(),
            j <= order@.len(),
            out@.len() == j,
            forall|a: int| 0 <= a < j ==> out@[a] == orig[order@[a] as int],
            forall|a: int| 0 <= a < order@.len() && j <= a ==> slots@[order@[a] as int] == Some(orig[order@[a] as int]),
        decreases order@.len() - j,
    {
        let p = order[j];
        proof {
            assert(slots@[order@[j as int] as int] == Some(orig[order@[j as int] as int]));
        }
        let ghost before = slots@;
        let taken = slots[p].take();
        proof {
            assert(slots@ == before.update(p as int, None));
            assert forall|a: int| 0 <= a < order@.len() && j + 1 <= a implies slots@[order@[a] as int] == Some(
                orig[order@[a] as int],
            ) by {
                assert(order@[a] != order@[j as int]);
            }
        }
        match taken {
            Some(snap) => {
                out.push(snap);
            },
            None => {},
        }
        j = j + 1;
    }
    out
}

proof fn lemma_changed_keys_empty(mine: Seq<(Seq<char>, Seq<char>)>, theirs: Seq<(Seq<char>, Seq<char>)>)
    ensures
        changed_keys(mine, theirs).len() == 0 <==> forall|i: int| 0 <= i < mine.len() ==> lookup(theirs,
            #[trigger] mine[i].0) == Some(mine[i].1),
    decreases mine.len(),
{
    if mine.len() > 0 {
        let mp = mine.drop_last();
        lemma_changed_keys_empty(mp, theirs);
        if changed_keys(mine, theirs).len() == 0 {
            assert forall|i: int| 0 <= i < mine.len() implies lookup(theirs, #[trigger] mine[i].0) == Some(mine[i].1) by {
                if i < mp.len() {
                    assert(mp[i] == mine[i]);
                }
            }
        }
        if forall|i: int| 0 <= i < mine.len() ==> lookup(theirs, #[trigger] mine[i].0) == Some(mine[i].1) {
            assert forall|i: int| 0 <= i < mp.len() implies lookup(theirs, #[trigger] mp[i].0) == Some(mp[i].1) by {
                assert(mp[i] == mine[i]);
            }
            assert(lookup(theirs, mine[mine.len() - 1].0) == Some(mine[mine.len() - 1].1));
        }
    }
}

/// Law: a snapshot's change list against another is empty exactly when both
/// hold the same secrets (as maps from key to value).
pub proof fn law_no_changes_iff_same(r: Seq<(Seq<char>, SnapshotDiff)>, mine: Seq<(Seq<char>, Seq<char>)>, theirs: Seq<(Seq<char>, Seq<char>)>)
    requires
        unique_keys(mine),
        unique_keys(theirs),
        is_snapshot_diff(r, mine, theirs),
    ensures
        r.len() == 0 <==> crate::strmap::as_map(mine) == crate::strmap::as_map(theirs),
{
    let c = changed_keys(mine, theirs);
    let a = keys_by_presence(mine, theirs, false);
    lemma_changed_keys_empty(mine, theirs);
    lemma_keys_by_presence(mine, theirs, false);
    assert(keys_of(r).len() == r.len());
    assert((c + a).len() == c.len() + a.len());
    if r.len() == 0 {
        assert forall|j: int| 0 <= j < theirs.len() implies has_key(mine, #[trigger] theirs[j].0) by {
            assert(has_key(mine, theirs[j].0) != false);
        }
        crate::strmap::lemma_as_map_ext(mine, theirs);
    }
    if crate::strmap::as_map(mine) == crate::strmap::as_map(theirs) {
        assert forall|i: int| 0 <= i < mine.len() implies lookup(theirs, #[trigger] mine[i].0) == Some(mine[i].1) by {
            lemma_lookup_at(mine, i);
            let k = mine[i].0;
            assert(crate::strmap::as_map(theirs).contains_key(k));
            assert(has_key(theirs, k));
            let w = key_index(theirs, k);
            crate::strmap::lemma_key_index(theirs, k);
            lemma_lookup_at(theirs, w);
        }
        assert forall|j: int| 0 <= j < theirs.len() implies has_key(mine, #[trigger] theirs[j].0) != false by {
            lemma_lookup_at(theirs, j);
            assert(crate::strmap::as_map(mine).contains_key(theirs[j].0));
        }
    }
}

} // verus!
