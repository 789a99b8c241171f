//! Comparing the secrets of two bundles.

use vstd::prelude::*;
use crate::bundle::Bundle;
use crate::strmap::{StrMap, as_map, lemma_as_map_ext, lemma_keys_by_presence, has_key, key_index, keys_by_presence, lemma_key_index, lemma_lookup_at, lookup, unique_keys};

verus! {

/// What became of one key between the old and the new bundle.
pub enum DiffEntry {
    /// Only in the new bundle, with its value.
    Added(String),
    /// Only in the old bundle, with its value.
    Removed(String),
    /// In both, with different values.
    Modified { old: String, new: String },
    /// In both, with the same value.
    Unchanged,
}

impl DeepView for DiffEntry {
    type V = DiffEntry;

    open spec fn deep_view(&self) -> DiffEntry {
        *self
    }
}

/// The difference between two bundles, keyed by secret name.
pub struct BundleDiff {
    pub entries: StrMap<DiffEntry>,
}

/// `e` describes a key whose old value is `old_v` and whose new value is `new_v`.
pub open spec fn describes(e: DiffEntry, old_v: Seq<char>, new_v: Option<Seq<char>>) -> bool {
    match new_v {
        None => e matches DiffEntry::Removed(x) && x@ == old_v,
        Some(nv) => if nv == old_v {
            e is Unchanged
        } else {
            e matches DiffEntry::Modified { old, new } && old@ == old_v && new@ == nv
        },
    }
}

/// `r` is the diff of `old` against `new`: first the old keys in order, then
/// the keys only in `new`, in order.
pub open spec fn is_diff(r: Seq<(Seq<char>, DiffEntry)>, old: Seq<(Seq<char>, Seq<char>)>, new: Seq<(Seq<char>, Seq<char>)>) -> bool {
    let added = keys_by_presence(old, new, false);
    &&& r.len() == old.len() + added.len()
    &&& forall|i: int| 0 <= i < old.len() ==> #[trigger] r[i].0 == old[i].0
        && describes(r[i].1, old[i].1, lookup(new, old[i].0))
    &&& forall|k: int| old.len() <= k < r.len() ==> #[trigger] r[k].0 == added[k - old.len()]
        && (r[k].1 matches DiffEntry::Added(v) && lookup(new, added[k - old.len()]) == Some(v@))
}

/// The keys whose entry satisfies `tag` (0: added, 1: removed, 2: modified), in order.
pub open spec fn keys_tagged(s: Seq<(Seq<char>, DiffEntry)>, tag: int) -> Seq<Seq<char>>
    decreases s.len(),
{
    if s.len() == 0 {
        Seq::empty()
    } else {
        let rest = keys_tagged(s.drop_last(), tag);
        let e = s.last().1;
        if (tag == 0 && e is Added) || (tag == 1 && e is Removed) || (tag == 2 && e is Modified) {
            rest.push(s.last().0)
        } else {
            rest
        }
    }
}

impl BundleDiff {
    /// Whether some key was added, removed or modified.
    pub fn has_changes(&self) -> (r: bool)
        ensures
            r == exists|i: int| 0 <= i < self.entries@.len() && !(#[trigger] self.entries@[i].1 is Unchanged),
    {
        let mut i: usize = 0;
        while i < self.entries.len()
            invariant
                i <= self.entries@.len(),
                forall|j: int| 0 <= j < i ==> #[trigger] self.entries@[j].1 is Unchanged,
            decreases self.entries@.len() - i,
        {
            match self.entries.value_at(i) {
                DiffEntry::Unchanged => {},
                _ => {
                    return true;
                },
            }
            i = i + 1;
        }
        false
    }

    fn keys_with_tag(&self, tag: u8) -> (r: Vec<&str>)
        requires
            tag <= 2,
        ensures
            r@.map_values(|k: &str| k@) == keys_tagged(self.entries@, tag as int),
    {
        let ghost s = self.entries@;
        let mut r: Vec<&str> = Vec::new();
        let mut i: usize = 0;
        assert(s.take(0) =~= Seq::<(Seq<char>, DiffEntry)>::empty());
        while i < self.entries.len()
            invariant
                s == self.entries@,
                tag <= 2,
                i <= s.len(),
                r@.map_values(|k: &str| k@) == keys_tagged(s.take(i as int), tag as int),
            decreases s.len() - i,
        {
            assert(s.take(i + 1).drop_last() =~= s.take(i as int));
            let e = self.entries.value_at(i);
            let hit = match e {
                DiffEntry::Added(_) => tag == 0,
                DiffEntry::Removed(_) => tag == 1,
                DiffEntry::Modified { .. } => tag == 2,
                DiffEntry::Unchanged => false,
            };
            if hit {
                let ghost before = r@;
                r.push(self.entries.key_at(i).as_str());
                assert(r@.map_values(|k: &str| k@) =~= before.map_values(|k: &str| k@).push(s[i as int].0));
            }
            i = i + 1;
        }
        assert(s.take(s.len() as int) =~= s);
        r
    }

    /// The added keys, in order.
    pub fn added(&self) -> (r: Vec<&str>)
        ensures
            r@.map_values(|k: &str| k@) == keys_tagged(self.entries@, 0),
    {
        self.keys_with_tag(0)
    }

    /// The removed keys, in order.
    pub fn removed(&self) -> (r: Vec<&str>)
        ensures
            r@.map_values(|k: &str| k@) == keys_tagged(self.entries@, 1),
    {
        self.keys_with_tag(1)
    }

    /// The modified keys, in order.
    pub fn modified(&self) -> (r: Vec<&str>)
        ensures
            r@.map_values(|k: &str| k@) == keys_tagged(self.entries@, 2),
    {
        self.keys_with_tag(2)
    }
}

/// Compares the secrets of `old` and `new`: every key of `old` is reported as
/// unchanged, modified (with both values) or removed (with its old value), and
/// every key only in `new` as added (with its value).
pub fn diff_bundles(old: &Bundle, new: &Bundle) -> (r: BundleDiff)
    ensures
        is_diff(r.entries@, old.secrets@, new.secrets@),
{
    let ghost o = old.secrets@;
    let ghost nw = new.secrets@;
    proof {
        use_type_invariant(&old.secrets);
        use_type_invariant(&new.secrets);
    }
    let mut entries: StrMap<DiffEntry> = StrMap::new();
    let n = old.secrets.len();
    let mut i: usize = 0;
    while i < n
        invariant
            o == old.secrets@,
            nw == new.secrets@,
            unique_keys(o),
            n == o.len(),
            i <= n,
            entries@.len() == i,
            forall|j: int| 0 <= j < i ==> #[trigger] entries@[j].0 == o[j].0
                && describes(entries@[j].1, o[j].1, lookup(nw, o[j].0)),
        decreases n - i,
    {
        let key = old.secrets.key_at(i);
        let old_val = old.secrets.value_at(i);
        let e = match new.secrets.get(key.as_str()) {
            Some(new_val) => {
                if *new_val == *old_val {
                    DiffEntry::Unchanged
                } else {
                    DiffEntry::Modified { old: old_val.clone(), new: new_val.clone() }
                }
            },
            None => DiffEntry::Removed(old_val.clone()),
        };
        proof {
            use_type_invariant(&entries);
            assert(!has_key(entries@, key@)) by {
                if has_key(entries@, key@) {
                    let j = key_index(entries@, key@);
                    assert(o[j].0 == o[i as int].0);
                }
            }
        }
        let ghost before = entries@;
        entries.insert(key.clone(), e);
        assert(entries@ == before.push((o[i as int].0, e)));
        i = i + 1;
    }
    let ghost added = keys_by_presence(o, nw, false);
    let m = new.secrets.len();
    let mut j: usize = 0;
    assert(nw.take(0) =~= Seq::<(Seq<char>, Seq<char>)>::empty());
    while j < m
        invariant
            o == old.secrets@,
            nw == new.secrets@,
            unique_keys(o),
            unique_keys(nw),
            n == o.len(),
            m == nw.len(),
            j <= m,
            entries@.len() == n + keys_by_presence(o, nw.take(j as int), false).len(),
            forall|k: int| 0 <= k < n ==> #[trigger] entries@[k].0 == o[k].0
                && describes(entries@[k].1, o[k].1, lookup(nw, o[k].0)),
            forall|k: int| 0 <= k < keys_by_presence(o, nw.take(j as int), false).len() ==>
                #[trigger] entries@[n + k].0 == keys_by_presence(o, nw.take(j as int), false)[k]
                && (entries@[n + k].1 matches DiffEntry::Added(v)
                    && lookup(nw, keys_by_presence(o, nw.take(j as int), false)[k]) == Some(v@)),
            forall|k: int| 0 <= k < keys_by_presence(o, nw.take(j as int), false).len() ==>
                has_key(nw.take(j as int), #[trigger] keys_by_presence(o, nw.take(j as int), false)[k]),
        decreases m - j,
    {
        let key = new.secrets.key_at(j);
        let new_val = new.secrets.value_at(j);
        let ghost pre = keys_by_presence(o, nw.take(j as int), false);
        assert(nw.take(j + 1).drop_last() =~= nw.take(j as int));
        assert(nw.take(j + 1).last() == nw[j as int]);
        if !old.secrets.contains_key(key.as_str()) {
            proof {
                use_type_invariant(&entries);
                lemma_lookup_at(nw, j as int);
                assert(!has_key(entries@, key@)) by {
                    if has_key(entries@, key@) {
                        let q = key_index(entries@, key@);
                        if q < n {
                            assert(entries@[q].0 == o[q].0);
                        } else {
                            let k = q - n;
                            assert(entries@[n + k].0 == pre[k]);
                            assert(has_key(nw.take(j as int), pre[k]));
                            let w = key_index(nw.take(j as int), pre[k]);
                            assert(nw[w].0 == nw[j as int].0);
                        }
                    }
                }
            }
            let ghost before = entries@;
            let added_entry = DiffEntry::Added(new_val.clone());
            let ghost ae = added_entry;
            entries.insert(key.clone(), added_entry);
            assert(entries@ == before.push((key@, ae)));
            proof {
                let post = keys_by_presence(o, nw.take(j + 1), false);
                assert(post == pre.push(key@));
                assert forall|k: int| 0 <= k < post.len() implies has_key(nw.take(j + 1), #[trigger] post[k]) by {
                    if k < pre.len() {
                        let w = key_index(nw.take(j as int), pre[k]);
                        assert(nw.take(j + 1)[w] == nw.take(j as int)[w]);
                    } else {
                        assert(nw.take(j + 1)[j as int].0 == key@);
                    }
                }
            }
        } else {
            proof {
                let post = keys_by_presence(o, nw.take(j + 1), false);
                assert(post == pre);
                assert forall|k: int| 0 <= k < post.len() implies has_key(nw.take(j + 1), #[trigger] post[k]) by {
                    let w = key_index(nw.take(j as int), pre[k]);
                    assert(nw.take(j + 1)[w] == nw.take(j as int)[w]);
                }
            }
        }
        j = j + 1;
    }
    assert(nw.take(m as int) =~= nw);
    assert(keys_by_presence(o, nw.take(m as int), false) == added);
    assert forall|k: int| o.len() <= k < entries@.len() implies #[trigger] entries@[k].0 == added[k - o.len()]
        && (entries@[k].1 matches DiffEntry::Added(v) && lookup(nw, added[k - o.len()]) == Some(v@)) by {
        assert(entries@[n + (k - n)].0 == keys_by_presence(o, nw.take(m as int), false)[k - n]);
    }
    BundleDiff { entries }
}

/// Law: a diff reports no change exactly when both bundles hold the same
/// secrets (as maps from key to value).
pub proof fn law_diff_unchanged_iff_equal(r: Seq<(Seq<char>, DiffEntry)>, old: Seq<(Seq<char>, Seq<char>)>, new: Seq<(Seq<char>, Seq<char>)>)
    requires
        unique_keys(old),
        unique_keys(new),
        is_diff(r, old, new),
    ensures
        (forall|i: int| 0 <= i < r.len() ==> #[trigger] r[i].1 is Unchanged) <==> as_map(old) == as_map(new),
{
    let added = keys_by_presence(old, new, false);
    lemma_keys_by_presence(old, new, false);
    if forall|i: int| 0 <= i < r.len() ==> #[trigger] r[i].1 is Unchanged {
        assert(added.len() == 0) by {
            if added.len() > 0 {
                assert(r[old.len() as int].0 == added[0]);
            }
        }
        assert forall|i: int| 0 <= i < old.len() implies lookup(new, #[trigger] old[i].0) == Some(old[i].1) by {
            assert(r[i].0 == old[i].0);
            assert(r[i].1 is Unchanged);
        }
        lemma_as_map_ext(old, new);
    }
    if as_map(old) == as_map(new) {
        assert forall|j: int| 0 <= j < new.len() implies has_key(old, #[trigger] new[j].0) != false by {
            lemma_lookup_at(new, j);
            assert(as_map(new).contains_key(new[j].0));
        }
        assert(added.len() == 0);
        assert forall|i: int| 0 <= i < r.len() implies #[trigger] r[i].1 is Unchanged by {
            assert(r[i].0 == old[i].0);
            lemma_lookup_at(old, i);
            assert(as_map(new).contains_key(old[i].0));
            assert(has_key(new, old[i].0));
            let j = key_index(new, old[i].0);
            lemma_key_index(new, old[i].0);
            lemma_lookup_at(new, j);
            assert(as_map(new)[old[i].0] == new[j].1);
            assert(lookup(new, old[i].0) == Some(old[i].1));
        }
    }
}

} // verus!
