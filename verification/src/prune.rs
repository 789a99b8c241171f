//! Pruning keys from a bundle: by prefix, by empty value or by name.

use vstd::prelude::*;
use vstd::string::StringExecFns;
use crate::bundle::Bundle;
use crate::error::VaultError;
use crate::strmap::{StrMap, has_key, key_index, keys_of, unique_keys};
use crate::text::{owned, blank, decimal, has_prefix, is_blank, push_str, starts_with, str_eq, usize_to_string};

verus! {

/// The keys removed (or, in a dry run, to be removed) and those kept.
pub struct PruneResult {
    pub removed_keys: Vec<String>,
    pub kept_keys: Vec<String>,
    pub dry_run: bool,
}

/// How to choose the keys to prune.
pub enum PruneMode {
    Prefix(String),
    Empty,
    Keys(Vec<String>),
}

/// Keys starting with `p`.
pub open spec fn by_prefix(p: Seq<char>) -> spec_fn((Seq<char>, Seq<char>)) -> bool {
    |e: (Seq<char>, Seq<char>)| has_prefix(e.0, p)
}

/// Blank values.
pub open spec fn by_empty_value() -> spec_fn((Seq<char>, Seq<char>)) -> bool {
    |e: (Seq<char>, Seq<char>)| is_blank(e.1)
}

/// Keys among `ks`.
pub open spec fn by_keys(ks: Seq<Seq<char>>) -> spec_fn((Seq<char>, Seq<char>)) -> bool {
    |e: (Seq<char>, Seq<char>)| ks.contains(e.0)
}

/// Which entries `mode` prunes.
pub open spec fn mode_pred(mode: PruneMode) -> spec_fn((Seq<char>, Seq<char>)) -> bool {
    match mode {
        PruneMode::Prefix(p) => by_prefix(p@),
        PruneMode::Empty => by_empty_value(),
        PruneMode::Keys(ks) => by_keys(ks@.map_values(|x: String| x@)),
    }
}

/// The entries of `s` that `pred` holds (`want`) or does not hold (`!want`) of, in order.
pub open spec fn select(s: Seq<(Seq<char>, Seq<char>)>, pred: spec_fn((Seq<char>, Seq<char>)) -> bool, want: bool) -> Seq<(Seq<char>, Seq<char>)>
    decreases s.len(),
{
    if s.len() == 0 {
        Seq::empty()
    } else {
        let rest = select(s.drop_last(), pred, want);
        if pred(s.last()) == want {
            rest.push(s.last())
        } else {
            rest
        }
    }
}

impl PruneResult {
    /// One line saying how many keys were (or would be) removed and kept.
    pub fn summary(&self) -> (r: String)
        ensures
            r@ == if self.dry_run {
                "[dry-run] Would remove "@ + decimal(self.removed_keys@.len()) + " key(s), keep "@
                    + decimal(self.kept_keys@.len()) + " key(s)"@
            } else {
                "Removed "@ + decimal(self.removed_keys@.len()) + " key(s), kept "@ + decimal(self.kept_keys@.len())
                    + " key(s)"@
            },
    {
        let mut s = if self.dry_run {
            String::from_str("[dry-run] Would remove ")
        } else {
            String::from_str("Removed ")
        };
        push_str(&mut s, usize_to_string(self.removed_keys.len()).as_str());
        push_str(&mut s, if self.dry_run { " key(s), keep " } else { " key(s), kept " });
        push_str(&mut s, usize_to_string(self.kept_keys.len()).as_str());
        push_str(&mut s, " key(s)");
        s
    }
}

fn in_list(v: &Vec<String>, k: &str) -> (r: bool)
    ensures
        r == v@.map_values(|s: String| s@).contains(k@),
{
    let ghost vs = v@.map_values(|s: String| s@);
    let mut i: usize = 0;
    while i < v.len()
        invariant
            vs == v@.map_values(|s: String| s@),
            i <= v@.len(),
            forall|j: int| 0 <= j < i ==> vs[j] != k@,
        decreases v@.len() - i,
    {
        if str_eq(v[i].as_str(), k) {
            assert(vs[i as int] == k@);
            return true;
        }
        i = i + 1;
    }
    false
}

fn is_pruned(mode: &PruneMode, k: &str, v: &str) -> (r: bool)
    ensures
        r == mode_pred(*mode)((k@, v@)),
{
    match mode {
        PruneMode::Prefix(p) => starts_with(k, p.as_str()),
        PruneMode::Empty => blank(v),
        PruneMode::Keys(ks) => in_list(ks, k),
    }
}

proof fn lemma_select_unique(s: Seq<(Seq<char>, Seq<char>)>, mode: spec_fn((Seq<char>, Seq<char>)) -> bool, want: bool, k: Seq<char>)
    requires
        unique_keys(s),
    ensures
        unique_keys(select(s, mode, want)),
        has_key(select(s, mode, want), k) ==> has_key(s, k),
    decreases s.len(),
{
    if s.len() > 0 {
        let sp = s.drop_last();
        lemma_select_unique(sp, mode, want, k);
        lemma_select_unique(sp, mode, want, s.last().0);
        let t = select(sp, mode, want);
        if has_key(t, k) {
            let j = key_index(sp, k);
            assert(s[j] == sp[j]);
        }
        if mode(s.last()) == want {
            assert(!has_key(t, s.last().0)) by {
                if has_key(t, s.last().0) {
                    let j = key_index(sp, s.last().0);
                    assert(s[j].0 == s[s.len() - 1].0);
                }
            }
            assert(unique_keys(t.push(s.last()))) by {
                assert forall|a: int, b: int| 0 <= a < b < t.len() + 1 implies t.push(s.last())[a].0 != t.push(s.last())[b].0 by {
                    if b == t.len() {
                        assert(t[a].0 != s.last().0) by {
                            if t[a].0 == s.last().0 {
                                assert(has_key(t, s.last().0));
                            }
                        }
                    }
                }
            }
            if has_key(t.push(s.last()), k) && k != s.last().0 {
                let j = key_index(t.push(s.last()), k);
                assert(t[j].0 == k);
            }
        }
    }
}

/// Splits the bundle's keys into those pruned under `mode` and the others
/// (both in order) and, unless `dry_run`, removes the pruned ones. Never fails.
pub fn prune(bundle: &mut Bundle, mode: &PruneMode, dry_run: bool) -> (r: Result<PruneResult, VaultError>)
    ensures
        r matches Ok(res) && res.dry_run == dry_run
            && res.removed_keys@.map_values(|k: String| k@) == keys_of(select(old(bundle).secrets@, mode_pred(*mode), true))
            && res.kept_keys@.map_values(|k: String| k@) == keys_of(select(old(bundle).secrets@, mode_pred(*mode), false)),
        final(bundle).secrets@ == if dry_run { old(bundle).secrets@ } else { select(old(bundle).secrets@, mode_pred(*mode), false) },
        final(bundle).name == old(bundle).name,
        final(bundle).description == old(bundle).description,
        final(bundle).created_at == old(bundle).created_at,
        final(bundle).updated_at == old(bundle).updated_at,
{
    let ghost s = bundle.secrets@;
    proof { use_type_invariant(&bundle.secrets); }
    let n = bundle.secrets.len();
    let mut removed: Vec<String> = Vec::new();
    let mut kept: Vec<String> = Vec::new();
    let mut remaining: StrMap<String> = StrMap::new();
    let mut i: usize = 0;
    assert(s.take(0) =~= Seq::<(Seq<char>, Seq<char>)>::empty());
    while i < n
        invariant
            s == bundle.secrets@,
            unique_keys(s),
            n == s.len(),
            i <= n,
            removed@.map_values(|k: String| k@) == keys_of(select(s.take(i as int), mode_pred(*mode), true)),
            kept@.map_values(|k: String| k@) == keys_of(select(s.take(i as int), mode_pred(*mode), false)),
            remaining@ == select(s.take(i as int), mode_pred(*mode), false),
        decreases n - i,
    {
        assert(s.take(i + 1).drop_last() =~= s.take(i as int));
        assert(s.take(i + 1).last() == s[i as int]);
        let key = bundle.secrets.key_at(i);
        let value = bundle.secrets.value_at(i);
        let ghost r0 = removed@.map_values(|k: String| k@);
        let ghost k0 = kept@.map_values(|k: String| k@);
        if is_pruned(mode, key.as_str(), value.as_str()) {
            removed.push(key.clone());
            assert(removed@.map_values(|k: String| k@) =~= r0.push(key@));
            assert(keys_of(select(s.take(i + 1), mode_pred(*mode), true)) =~= keys_of(select(s.take(i as int), mode_pred(*mode), true)).push(key@));
        } else {
            kept.push(key.clone());
            assert(kept@.map_values(|k: String| k@) =~= k0.push(key@));
            assert(keys_of(select(s.take(i + 1), mode_pred(*mode), false)) =~= keys_of(select(s.take(i as int), mode_pred(*mode), false)).push(key@));
            proof {
                lemma_select_unique(s.take(i as int), mode_pred(*mode), false, key@);
                assert(!has_key(s.take(i as int), key@)) by {
                    if has_key(s.take(i as int), key@) {
                        let j = key_index(s.take(i as int), key@);
                        assert(s[j].0 == s[i as int].0);
                    }
                }
            }
            remaining.insert(key.clone(), value.clone());
        }
        i = i + 1;
    }
    assert(s.take(n as int) =~= s);
    if !dry_run {
        bundle.secrets = remaining;
    }
    Ok(PruneResult { removed_keys: removed, kept_keys: kept, dry_run })
}

/// Prunes the keys that start with `prefix`.
pub fn prune_by_prefix(bundle: &mut Bundle, prefix: &str, dry_run: bool) -> (r: Result<PruneResult, VaultError>)
    ensures
        r matches Ok(res) && res.dry_run == dry_run
            && res.removed_keys@.map_values(|k: String| k@) == keys_of(select(old(bundle).secrets@, by_prefix(prefix@), true))
            && res.kept_keys@.map_values(|k: String| k@) == keys_of(select(old(bundle).secrets@, by_prefix(prefix@), false)),
        final(bundle).secrets@ == if dry_run { old(bundle).secrets@ } else { select(old(bundle).secrets@, by_prefix(prefix@), false) },
        final(bundle).name == old(bundle).name,
        final(bundle).description == old(bundle).description,
        final(bundle).created_at == old(bundle).created_at,
        final(bundle).updated_at == old(bundle).updated_at,
{
    let mode = PruneMode::Prefix(owned(prefix));
    assert(mode_pred(mode) =~= by_prefix(prefix@));
    prune(bundle, &mode, dry_run)
}

/// Prunes the keys whose values are empty or whitespace only.
pub fn prune_empty_values(bundle: &mut Bundle, dry_run: bool) -> (r: Result<PruneResult, VaultError>)
    ensures
        r matches Ok(res) && res.dry_run == dry_run
            && res.removed_keys@.map_values(|k: String| k@) == keys_of(select(old(bundle).secrets@, by_empty_value(), true))
            && res.kept_keys@.map_values(|k: String| k@) == keys_of(select(old(bundle).secrets@, by_empty_value(), false)),
        final(bundle).secrets@ == if dry_run { old(bundle).secrets@ } else { select(old(bundle).secrets@, by_empty_value(), false) },
        final(bundle).name == old(bundle).name,
        final(bundle).description == old(bundle).description,
        final(bundle).created_at == old(bundle).created_at,
        final(bundle).updated_at == old(bundle).updated_at,
{
    let mode = PruneMode::Empty;
    assert(mode_pred(mode) =~= by_empty_value());
    prune(bundle, &mode, dry_run)
}

/// Prunes the keys listed in `keys`.
pub fn prune_by_keys(bundle: &mut Bundle, keys: &[String], dry_run: bool) -> (r: Result<PruneResult, VaultError>)
    ensures
        r matches Ok(res) && res.dry_run == dry_run
            && res.removed_keys@.map_values(|k: String| k@) == keys_of(select(old(bundle).secrets@, by_keys(keys@.map_values(|k: String| k@)), true))
            && res.kept_keys@.map_values(|k: String| k@) == keys_of(select(old(bundle).secrets@, by_keys(keys@.map_values(|k: String| k@)), false)),
        final(bundle).secrets@ == if dry_run { old(bundle).secrets@ } else { select(old(bundle).secrets@, by_keys(keys@.map_values(|k: String| k@)), false) },
        final(bundle).name == old(bundle).name,
        final(bundle).description == old(bundle).description,
        final(bundle).created_at == old(bundle).created_at,
        final(bundle).updated_at == old(bundle).updated_at,
{
    let mut ks: Vec<String> = Vec::new();
    let mut i: usize = 0;
    while i < keys.len()
        invariant
            i <= keys@.len(),
            ks@ == keys@.take(i as int),
        decreases keys@.len() - i,
    {
        ks.push(keys[i].clone());
        assert(ks@ =~= keys@.take(i + 1));
        i = i + 1;
    }
    assert(keys@.take(keys@.len() as int) =~= keys@);
    let mode = PruneMode::Keys(ks);
    assert(mode_pred(mode) =~= by_keys(keys@.map_values(|k: String| k@)));
    prune(bundle, &mode, dry_run)
}

/// The summary text of a prune result.
pub open spec fn summary_text(removed: nat, kept: nat, dry_run: bool) -> Seq<char> {
    if dry_run {
        "[dry-run] Would remove "@ + decimal(removed) + " key(s), keep "@ + decimal(kept) + " key(s)"@
    } else {
        "Removed "@ + decimal(removed) + " key(s), kept "@ + decimal(kept) + " key(s)"@
    }
}

impl PruneResult {
    /// The report of a prune: the summary, then the removed keys under a
    /// heading, or a note that no key matched.
    pub fn report_lines(&self) -> (r: Vec<String>)
        ensures
            r@[0]@ == summary_text(self.removed_keys@.len(), self.kept_keys@.len(), self.dry_run),
            self.removed_keys@.len() == 0 ==> r@.len() == 2 && r@[1]@ == "No matching keys found."@,
            self.removed_keys@.len() > 0 ==> r@.len() == 2 + self.removed_keys@.len() && r@[1]@ == (if self.dry_run {
                "Keys to remove:"@
            } else {
                "Keys removed:"@
            }) && forall|i: int| 0 <= i < self.removed_keys@.len() ==> (#[trigger] r@[2 + i])@ == "  - "@
                + self.removed_keys@[i]@,
    {
        let mut out: Vec<String> = Vec::new();
        out.push(self.summary());
        if self.removed_keys.len() == 0 {
            out.push(String::from_str("No matching keys found."));
            return out;
        }
        out.push(String::from_str(if self.dry_run { "Keys to remove:" } else { "Keys removed:" }));
        let mut i: usize = 0;
        while i < self.removed_keys.len()
            invariant
                i <= self.removed_keys@.len(),
                out@.len() == 2 + i,
                out@[0]@ == summary_text(self.removed_keys@.len(), self.kept_keys@.len(), self.dry_run),
                out@[1]@ == (if self.dry_run { "Keys to remove:"@ } else { "Keys removed:"@ }),
                forall|a: int| 0 <= a < i ==> (#[trigger] out@[2 + a])@ == "  - "@ + self.removed_keys@[a]@,
            decreases self.removed_keys@.len() - i,
        {
            let mut l = String::from_str("  - ");
            push_str(&mut l, self.removed_keys[i].as_str());
            out.push(l);
            i = i + 1;
        }
        out
    }
}

proof fn lemma_select_len(s: Seq<(Seq<char>, Seq<char>)>, pred: spec_fn((Seq<char>, Seq<char>)) -> bool)
    ensures
        select(s, pred, true).len() + select(s, pred, false).len() == s.len(),
    decreases s.len(),
{
    if s.len() > 0 {
        lemma_select_len(s.drop_last(), pred);
    }
}

proof fn lemma_select_contains(s: Seq<(Seq<char>, Seq<char>)>, pred: spec_fn((Seq<char>, Seq<char>)) -> bool, want: bool)
    requires
        unique_keys(s),
    ensures
        forall|i: int| 0 <= i < s.len() ==> (select(s, pred, want).contains(#[trigger] s[i]) <==> pred(s[i]) == want),
    decreases s.len(),
{
    if s.len() > 0 {
        let sp = s.drop_last();
        assert(unique_keys(sp)) by {
            assert forall|a: int, b: int| 0 <= a < b < sp.len() implies sp[a].0 != sp[b].0 by {
                assert(sp[a] == s[a] && sp[b] == s[b]);
            }
        }
        lemma_select_contains(sp, pred, want);
        lemma_select_members(sp, pred, want);
        let t = select(sp, pred, want);
        let u = select(s, pred, want);
        let last = s.last();
        assert forall|i: int| 0 <= i < s.len() implies (u.contains(#[trigger] s[i]) <==> pred(s[i]) == want) by {
            if i < sp.len() {
                assert(sp[i] == s[i]);
                if pred(last) == want {
                    assert(u == t.push(last));
                    if t.contains(s[i]) {
                        let k = choose|k: int| 0 <= k < t.len() && t[k] == s[i];
                        assert(u[k] == t[k]);
                    }
                    if u.contains(s[i]) {
                        let k = choose|k: int| 0 <= k < u.len() && u[k] == s[i];
                        if k < t.len() {
                            assert(t[k] == u[k]);
                        } else {
                            assert(s[i] == last);
                            assert(s[i].0 == s[s.len() - 1].0);
                        }
                    }
                } else {
                    assert(u == t);
                }
            } else {
                if pred(last) == want {
                    assert(u == t.push(last));
                    assert(u[t.len() as int] == last);
                } else {
                    assert(u == t);
                    if t.contains(last) {
                        let k = choose|k: int| 0 <= k < t.len() && t[k] == last;
                        let w = choose|w: int| 0 <= w < sp.len() && sp[w] == #[trigger] t[k];
                        assert(s[w].0 == s[s.len() - 1].0);
                    }
                }
            }
        }
    }
}

/// Law: the removed and the kept entries split the bundle: together they are
/// as many as its entries, and each entry is removed exactly when it is chosen
/// and kept exactly when it is not.
pub proof fn law_prune_partitions(s: Seq<(Seq<char>, Seq<char>)>, pred: spec_fn((Seq<char>, Seq<char>)) -> bool)
    requires
        unique_keys(s),
    ensures
        select(s, pred, true).len() + select(s, pred, false).len() == s.len(),
        forall|i: int| 0 <= i < s.len() ==> (select(s, pred, true).contains(#[trigger] s[i]) <==> pred(s[i])),
        forall|i: int| 0 <= i < s.len() ==> (select(s, pred, false).contains(#[trigger] s[i]) <==> !pred(s[i])),
{
    lemma_select_len(s, pred);
    lemma_select_contains(s, pred, true);
    lemma_select_contains(s, pred, false);
}

proof fn lemma_select_members(s: Seq<(Seq<char>, Seq<char>)>, pred: spec_fn((Seq<char>, Seq<char>)) -> bool, want: bool)
    ensures
        forall|k: int| 0 <= k < select(s, pred, want).len() ==> exists|w: int| 0 <= w < s.len()
            && s[w] == #[trigger] select(s, pred, want)[k],
    decreases s.len(),
{
    if s.len() > 0 {
        let sp = s.drop_last();
        lemma_select_members(sp, pred, want);
        assert forall|k: int| 0 <= k < select(s, pred, want).len() implies exists|w: int| 0 <= w < s.len()
            && s[w] == #[trigger] select(s, pred, want)[k] by {
            if k < select(sp, pred, want).len() {
                let w = choose|w: int| 0 <= w < sp.len() && sp[w] == select(sp, pred, want)[k];
                assert(s[w] == sp[w]);
            } else {
                assert(s[s.len() - 1] == select(s, pred, want)[k]);
            }
        }
    }
}

} // verus!
