//! Merging the secrets of one bundle into another.

use vstd::prelude::*;
use crate::bundle::Bundle;
use crate::error::VaultError;
use crate::strmap::{StrMap, keys_by_presence, as_map, has_key, insert_spec, key_index, lemma_insert_unique, lemma_key_index, lemma_lookup_at, lookup, unique_keys};
use crate::text::{join, join_strings};
use vstd::string::StringExecFns;

verus! {

/// How to treat a key present in both bundles.
#[derive(Debug, Clone, Copy, PartialEq, Eq)]
pub enum MergeStrategy {
    KeepSource,
    KeepTarget,
    FailOnConflict,
}

impl MergeStrategy {
    /// The default strategy: refuse conflicting keys.
    pub fn default() -> (r: MergeStrategy)
        ensures
            r == MergeStrategy::FailOnConflict,
    {
        MergeStrategy::FailOnConflict
    }
}

/// The outcome of a merge.
#[derive(Debug)]
pub struct MergeResult {
    pub merged: Bundle,
    pub conflicts: Vec<String>,
    pub added: Vec<String>,
    pub overwritten: Vec<String>,
}

/// The target's entries after merging the source entries `s` in order.
pub open spec fn merge_spec(t: Seq<(Seq<char>, Seq<char>)>, s: Seq<(Seq<char>, Seq<char>)>, strategy: MergeStrategy) -> Seq<(Seq<char>, Seq<char>)>
    decreases s.len(),
{
    if s.len() == 0 {
        t
    } else {
        let m = merge_spec(t, s.drop_last(), strategy);
        let k = s.last().0;
        let v = s.last().1;
        if has_key(t, k) {
            if strategy == MergeStrategy::KeepSource {
                insert_spec(m, k, v)
            } else {
                m
            }
        } else {
            insert_spec(m, k, v)
        }
    }
}

/// The message of a failed merge.
pub open spec fn conflict_msg(keys: Seq<Seq<char>>) -> Seq<char> {
    "Merge conflicts on keys: "@ + join(keys, ", "@)
}

proof fn lemma_merge_step_has_key(t: Seq<(Seq<char>, Seq<char>)>, s: Seq<(Seq<char>, Seq<char>)>, strategy: MergeStrategy, i: int, k: Seq<char>)
    requires
        unique_keys(t),
        unique_keys(s),
        0 <= i <= s.len(),
    ensures
        unique_keys(merge_spec(t, s.take(i), strategy)),
        has_key(merge_spec(t, s.take(i), strategy), k) <==> (has_key(t, k) || has_key(s.take(i), k)),
    decreases i,
{
    let si = s.take(i);
    if i > 0 {
        assert(si.drop_last() =~= s.take(i - 1));
        lemma_merge_step_has_key(t, s, strategy, i - 1, k);
        let m = merge_spec(t, s.take(i - 1), strategy);
        let kk = si.last().0;
        lemma_insert_unique(m, kk, si.last().1);
        if has_key(merge_spec(t, si, strategy), k) {
            if k != kk {
                if has_key(insert_spec(m, kk, si.last().1), k) {
                    let j = key_index(insert_spec(m, kk, si.last().1), k);
                    assert(lookup(insert_spec(m, kk, si.last().1), k) == lookup(m, k));
                }
                assert(has_key(m, k));
                if has_key(s.take(i - 1), k) {
                    let j = key_index(s.take(i - 1), k);
                    assert(si[j] == s.take(i - 1)[j]);
                }
            } else {
                assert(si[i - 1].0 == k);
            }
        }
        if has_key(si, k) && !has_key(t, k) {
            let j = key_index(si, k);
            if j < i - 1 {
                assert(s.take(i - 1)[j] == si[j]);
                assert(has_key(m, k));
                if k != kk {
                    assert(lookup(insert_spec(m, kk, si.last().1), k) == lookup(m, k));
                } else {
                    lemma_lookup_at(insert_spec(m, kk, si.last().1), key_index(insert_spec(m, kk, si.last().1), k));
                }
            } else {
                assert(k == kk);
            }
        }
        if has_key(t, k) && k != kk {
            assert(lookup(insert_spec(m, kk, si.last().1), k) == lookup(m, k));
        }
    } else {
        assert(si.len() == 0);
    }
}

/// Merges the secrets of `source` into a copy of `target`. A key only in
/// `source` is added; a key in both is overwritten (`KeepSource`), left as is
/// (`KeepTarget`), or makes the merge fail (`FailOnConflict`).
pub fn merge_bundles(target: &Bundle, source: &Bundle, strategy: &MergeStrategy) -> (r: Result<MergeResult, VaultError>)
    ensures
        ({
            let t = target.secrets@;
            let s = source.secrets@;
            let shared = keys_by_presence(t, s, true);
            match r {
                Ok(m) => {
                    &&& !(*strategy == MergeStrategy::FailOnConflict && shared.len() > 0)
                    &&& m.merged.secrets@ == merge_spec(t, s, *strategy)
                    &&& m.merged.name == target.name
                    &&& m.merged.description == target.description
                    &&& m.merged.created_at == target.created_at
                    &&& m.merged.updated_at == target.updated_at
                    &&& m.conflicts@.len() == 0
                    &&& m.added@.map_values(|k: String| k@) == keys_by_presence(t, s, false)
                    &&& m.overwritten@.map_values(|k: String| k@) == (if *strategy == MergeStrategy::KeepSource {
                        shared
                    } else {
                        Seq::empty()
                    })
                },
                Err(e) => {
                    &&& *strategy == MergeStrategy::FailOnConflict && shared.len() > 0
                    &&& e is Config
                    &&& e.msg() == conflict_msg(shared)
                },
            }
        }),
{
    let ghost t = target.secrets@;
    let ghost s = source.secrets@;
    proof {
        use_type_invariant(&target.secrets);
        use_type_invariant(&source.secrets);
    }
    let mut merged = target.secrets.copy();
    let mut conflicts: Vec<String> = Vec::new();
    let mut added: Vec<String> = Vec::new();
    let mut overwritten: Vec<String> = Vec::new();
    let n = source.secrets.len();
    let mut i: usize = 0;
    assert(s.take(0) =~= Seq::<(Seq<char>, Seq<char>)>::empty());
    while i < n
        invariant
            n == s.len(),
            i <= n,
            t == target.secrets@,
            s == source.secrets@,
            unique_keys(t),
            unique_keys(s),
            merged@ == merge_spec(t, s.take(i as int), *strategy),
            added@.map_values(|k: String| k@) == keys_by_presence(t, s.take(i as int), false),
            conflicts@.map_values(|k: String| k@) == (if *strategy == MergeStrategy::FailOnConflict {
                keys_by_presence(t, s.take(i as int), true)
            } else {
                Seq::empty()
            }),
            overwritten@.map_values(|k: String| k@) == (if *strategy == MergeStrategy::KeepSource {
                keys_by_presence(t, s.take(i as int), true)
            } else {
                Seq::empty()
            }),
        decreases n - i,
    {
        let key = source.secrets.key_at(i);
        let value = source.secrets.value_at(i);
        proof {
            assert(s.take(i + 1).drop_last() =~= s.take(i as int));
            lemma_merge_step_has_key(t, s, *strategy, i as int, key@);
            assert(!has_key(s.take(i as int), key@)) by {
                if has_key(s.take(i as int), key@) {
                    let j = key_index(s.take(i as int), key@);
                    assert(s[j].0 == s[i as int].0);
                }
            }
        }
        let ghost before_added = added@;
        let ghost before_conf = conflicts@;
        let ghost before_over = overwritten@;
        if merged.contains_key(key.as_str()) {
            match strategy {
                MergeStrategy::FailOnConflict => {
                    conflicts.push(key.clone());
                    assert(conflicts@.map_values(|k: String| k@) =~= before_conf.map_values(|k: String| k@).push(key@));
                },
                MergeStrategy::KeepSource => {
                    merged.insert(key.clone(), value.clone());
                    overwritten.push(key.clone());
                    assert(overwritten@.map_values(|k: String| k@) =~= before_over.map_values(|k: String| k@).push(key@));
                },
                MergeStrategy::KeepTarget => {},
            }
        } else {
            merged.insert(key.clone(), value.clone());
            added.push(key.clone());
            assert(added@.map_values(|k: String| k@) =~= before_added.map_values(|k: String| k@).push(key@));
        }
        i = i + 1;
    }
    assert(s.take(n as int) =~= s);
    if conflicts.len() > 0 {
        let joined = join_strings(&conflicts, ", ");
        let msg = String::from_str("Merge conflicts on keys: ").concat(joined.as_str());
        return Err(VaultError::Config(msg));
    }
    let merged_bundle = Bundle {
        name: target.name.clone(),
        description: match &target.description {
            Some(d) => Some(d.clone()),
            None => None,
        },
        secrets: merged,
        created_at: target.created_at.clone(),
        updated_at: target.updated_at.clone(),
    };
    Ok(MergeResult { merged: merged_bundle, conflicts, added, overwritten })
}

/// The map a merge yields: the source wins on shared keys under `KeepSource`,
/// the target under the other strategies.
pub open spec fn merged_map(t: Map<Seq<char>, Seq<char>>, s: Map<Seq<char>, Seq<char>>, strategy: MergeStrategy) -> Map<Seq<char>, Seq<char>> {
    if strategy == MergeStrategy::KeepSource {
        t.union_prefer_right(s)
    } else {
        s.union_prefer_right(t)
    }
}

/// Law: as a map, the merge of `s` into `t` is their union, the source's
/// values winning on shared keys under `KeepSource` and the target's under
/// `KeepTarget` (and under `FailOnConflict`, where a successful merge has none).
pub proof fn law_merge_is_union(t: Seq<(Seq<char>, Seq<char>)>, s: Seq<(Seq<char>, Seq<char>)>, strategy: MergeStrategy)
    requires
        unique_keys(t),
        unique_keys(s),
    ensures
        unique_keys(merge_spec(t, s, strategy)),
        as_map(merge_spec(t, s, strategy)) == merged_map(as_map(t), as_map(s), strategy),
    decreases s.len(),
{
    if s.len() == 0 {
        assert(as_map(s) =~= Map::<Seq<char>, Seq<char>>::empty());
        assert(merged_map(as_map(t), as_map(s), strategy) =~= as_map(t));
    } else {
        let sp = s.drop_last();
        let k = s.last().0;
        let v = s.last().1;
        assert(unique_keys(sp));
        law_merge_is_union(t, sp, strategy);
        let m = merge_spec(t, sp, strategy);
        lemma_insert_unique(m, k, v);
        assert(!has_key(sp, k)) by {
            if has_key(sp, k) {
                let j = key_index(sp, k);
                assert(s[j].0 == s[s.len() - 1].0);
            }
        }
        assert(insert_spec(sp, k, v) =~= s);
        lemma_insert_unique(sp, k, v);
        assert(as_map(s) == as_map(sp).insert(k, v));
        if has_key(t, k) {
            lemma_key_index(t, k);
            lemma_lookup_at(t, key_index(t, k));
        } else {
            assert(!as_map(t).contains_key(k));
        }
        assert(as_map(merge_spec(t, s, strategy)) =~= merged_map(as_map(t), as_map(s), strategy));
    }
}

/// Law: a merge that refuses conflicts succeeds exactly when the bundles share
/// no key, and then simply appends the source's entries to the target's.
pub proof fn law_fail_on_conflict_appends(t: Seq<(Seq<char>, Seq<char>)>, s: Seq<(Seq<char>, Seq<char>)>)
    requires
        unique_keys(t),
        unique_keys(s),
        keys_by_presence(t, s, true).len() == 0,
    ensures
        merge_spec(t, s, MergeStrategy::FailOnConflict) == t + s,
    decreases s.len(),
{
    if s.len() == 0 {
        assert(t + s =~= t);
    } else {
        let sp = s.drop_last();
        let k = s.last().0;
        assert(unique_keys(sp));
        assert(keys_by_presence(t, sp, true).len() == 0) by {
            if has_key(t, k) {
                assert(keys_by_presence(t, s, true) == keys_by_presence(t, sp, true).push(k));
            }
        }
        law_fail_on_conflict_appends(t, sp);
        assert(!has_key(t, k)) by {
            if has_key(t, k) {
                assert(keys_by_presence(t, s, true) == keys_by_presence(t, sp, true).push(k));
            }
        }
        assert(!has_key(t + sp, k)) by {
            if has_key(t + sp, k) {
                let j = key_index(t + sp, k);
                if j < t.len() {
                    assert((t + sp)[j] == t[j]);
                } else {
                    assert((t + sp)[j] == sp[j - t.len()]);
                    assert(s[j - t.len()].0 == s[s.len() - 1].0);
                }
            }
        }
        assert((t + sp).push((k, s.last().1)) =~= t + s);
    }
}

} // verus!
