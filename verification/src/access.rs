//! Access rules: which identity may do what on which bundles.

use vstd::prelude::*;
use vstd::string::StringExecFns;
use crate::error::VaultError;
use crate::strmap::{StrMap, insert_spec, lookup, lemma_insert_unique, lemma_lookup_at, unique_keys};
use crate::text::{chars_of, has_prefix, owned, starts_with, str_eq, string_of};

verus! {

/// What a rule allows.
#[derive(Debug, Clone, Copy, PartialEq, Eq, Structural)]
pub enum Permission {
    Read,
    Write,
    Delete,
    Admin,
}

/// Permissions granted to an identity on the bundles a pattern matches.
#[derive(Debug, Clone)]
pub struct AccessRule {
    pub identity: String,
    pub permissions: Vec<Permission>,
    pub bundle_pattern: String,
}

/// The list of access rules.
#[derive(Debug, Clone)]
pub struct AccessPolicy {
    pub rules: Vec<AccessRule>,
}

/// Whether `pattern` matches bundle name `bundle`: `*` matches every name, a
/// pattern ending in `*` every name starting with what precedes it, any other
/// pattern only itself.
pub open spec fn pattern_matches(pattern: Seq<char>, bundle: Seq<char>) -> bool {
    if pattern == "*"@ {
        true
    } else if pattern.len() > 0 && pattern.last() == '*' {
        has_prefix(bundle, pattern.drop_last())
    } else {
        pattern == bundle
    }
}

/// The rule is for `identity` and `pattern`.
pub open spec fn same_slot(r: AccessRule, identity: Seq<char>, pattern: Seq<char>) -> bool {
    r.identity@ == identity && r.bundle_pattern@ == pattern
}

/// The rule grants `perm` to `identity` on `bundle`.
pub open spec fn grants(r: AccessRule, identity: Seq<char>, bundle: Seq<char>, perm: Permission) -> bool {
    &&& r.identity@ == identity
    &&& pattern_matches(r.bundle_pattern@, bundle)
    &&& r.permissions@.contains(perm)
}

/// The rules not for `identity` and `pattern`, in order.
pub open spec fn without_slot(rules: Seq<AccessRule>, identity: Seq<char>, pattern: Seq<char>) -> Seq<AccessRule> {
    rules.filter(|r: AccessRule| !same_slot(r, identity, pattern))
}

/// The rules for `identity`, in order.
pub open spec fn rules_for(rules: Seq<AccessRule>, identity: Seq<char>) -> Seq<AccessRule> {
    rules.filter(|r: AccessRule| r.identity@ == identity)
}

/// For each identity, in order of first appearance, the patterns of its rules in order.
pub open spec fn summary_of(rules: Seq<AccessRule>) -> Seq<(Seq<char>, Seq<Seq<char>>)>
    decreases rules.len(),
{
    if rules.len() == 0 {
        Seq::empty()
    } else {
        let m = summary_of(rules.drop_last());
        let r = rules.last();
        let prev = match lookup(m, r.identity@) {
            Some(ps) => ps,
            None => Seq::empty(),
        };
        insert_spec(m, r.identity@, prev.push(r.bundle_pattern@))
    }
}

/// Whether `pattern` matches bundle name `bundle` (see `pattern_matches`).
pub fn bundle_matches(pattern: &str, bundle: &str) -> (r: bool)
    ensures
        r == pattern_matches(pattern@, bundle@),
{
    proof {
        reveal_strlit("*");
    }
    if str_eq(pattern, "*") {
        return true;
    }
    let cs = chars_of(pattern);
    let n = cs.len();
    if n > 0 && cs[n - 1] == '*' {
        let mut head: Vec<char> = Vec::new();
        let mut i: usize = 0;
        while i < n - 1
            invariant
                cs@ == pattern@,
                n == cs@.len(),
                n > 0,
                i <= n - 1,
                head@ == cs@.take(i as int),
            decreases n - 1 - i,
        {
            head.push(cs[i]);
            i = i + 1;
            assert(head@ =~= cs@.take(i as int));
        }
        assert(head@ =~= pattern@.drop_last());
        let prefix = string_of(head.as_slice());
        return starts_with(bundle, prefix.as_str());
    }
    str_eq(pattern, bundle)
}

/// The permission a name stands for, if any.
pub open spec fn permission_named(s: Seq<char>) -> Option<Permission> {
    if s == "read"@ {
        Some(Permission::Read)
    } else if s == "write"@ {
        Some(Permission::Write)
    } else if s == "delete"@ {
        Some(Permission::Delete)
    } else if s == "admin"@ {
        Some(Permission::Admin)
    } else {
        None
    }
}

fn parse_permission(s: &str) -> (r: Option<Permission>)
    ensures
        r == permission_named(s@),
{
    proof {
        reveal_strlit("read");
        reveal_strlit("write");
        reveal_strlit("delete");
        reveal_strlit("admin");
    }
    if str_eq(s, "read") {
        Some(Permission::Read)
    } else if str_eq(s, "write") {
        Some(Permission::Write)
    } else if str_eq(s, "delete") {
        Some(Permission::Delete)
    } else if str_eq(s, "admin") {
        Some(Permission::Admin)
    } else {
        None
    }
}

/// Parses permission names (`read`, `write`, `delete`, `admin`, exact case).
/// Fails on the first unknown name.
pub fn parse_permissions(raw: &[&str]) -> (r: Result<Vec<Permission>, VaultError>)
    ensures
        (forall|i: int| 0 <= i < raw@.len() ==> (#[trigger] permission_named(raw@[i]@)) is Some) ==> (r is Ok
            && r->Ok_0@.len() == raw@.len()
            && forall|i: int| 0 <= i < raw@.len() ==> Some(#[trigger] r->Ok_0@[i]) == permission_named(raw@[i]@)),
        forall|j: int| 0 <= j < raw@.len() && (#[trigger] permission_named(raw@[j]@)) is None
            && (forall|i: int| 0 <= i < j ==> (#[trigger] permission_named(raw@[i]@)) is Some)
            ==> (r matches Err(e) && e is InvalidInput && e.msg() == "Unknown permission: "@ + raw@[j]@),
{
    let mut out: Vec<Permission> = Vec::new();
    let mut i: usize = 0;
    while i < raw.len()
        invariant
            i <= raw@.len(),
            out@.len() == i,
            forall|a: int| 0 <= a < i ==> Some(#[trigger] out@[a]) == permission_named(raw@[a]@),
        decreases raw@.len() - i,
    {
        match parse_permission(raw[i]) {
            Some(p) => {
                out.push(p);
            },
            None => {
                let m = String::from_str("Unknown permission: ").concat(raw[i]);
                proof {
                    assert forall|j: int| 0 <= j < raw@.len() && (#[trigger] permission_named(raw@[j]@)) is None
                        && (forall|a: int| 0 <= a < j ==> (#[trigger] permission_named(raw@[a]@)) is Some)
                        implies j == i by {
                        if j < i {
                            assert(Some(out@[j]) == permission_named(raw@[j]@));
                        } else if j > i {
                            assert(permission_named(raw@[i as int]@) is Some);
                        }
                    }
                }
                return Err(VaultError::InvalidInput(m));
            },
        }
        i = i + 1;
    }
    assert forall|j: int| 0 <= j < raw@.len() implies (#[trigger] permission_named(raw@[j]@)) is Some by {
        assert(Some(out@[j]) == permission_named(raw@[j]@));
    }
    Ok(out)
}

/// The rule's identity and pattern are `identity` and `pattern`.
fn in_slot(r: &AccessRule, identity: &str, pattern: &str) -> (b: bool)
    ensures
        b == same_slot(*r, identity@, pattern@),
{
    str_eq(r.identity.as_str(), identity) && str_eq(r.bundle_pattern.as_str(), pattern)
}

/// The rules kept by `keep`, in order, moved out of `rules`.
fn retain_slot(rules: Vec<AccessRule>, identity: &str, pattern: &str) -> (r: (Vec<AccessRule>, bool))
    ensures
        r.0@ == without_slot(rules@, identity@, pattern@),
        r.1 == exists|i: int| 0 <= i < rules@.len() && same_slot(#[trigger] rules@[i], identity@, pattern@),
{
    let ghost orig = rules@;
    let ghost pred = |x: AccessRule| !same_slot(x, identity@, pattern@);
    let mut rest = rules;
    let mut kept: Vec<AccessRule> = Vec::new();
    let mut dropped = false;
    let mut i: usize = 0;
    let n = rest.len();
    assert(orig.take(0) =~= Seq::<AccessRule>::empty());
    proof { reveal(Seq::filter); }
    while rest.len() > 0
        invariant
            n == orig.len(),
            i + rest@.len() == n,
            rest@ == orig.skip(i as int),
            kept@ == orig.take(i as int).filter(pred),
            pred == (|x: AccessRule| !same_slot(x, identity@, pattern@)),
            dropped == exists|j: int| 0 <= j < i && same_slot(#[trigger] orig[j], identity@, pattern@),
        decreases rest@.len(),
    {
        let ghost before = rest@;
        let x = rest.remove(0);
        assert(x == orig[i as int]);
        assert(orig.take(i + 1).drop_last() =~= orig.take(i as int));
        assert(orig.take(i + 1).last() == x);
        proof { reveal(Seq::filter); }
        if in_slot(&x, identity, pattern) {
            dropped = true;
        } else {
            kept.push(x);
        }
        assert(rest@ =~= orig.skip(i + 1));
        i = i + 1;
    }
    assert(orig.take(n as int) =~= orig);
    (kept, dropped)
}

impl AccessPolicy {
    /// A policy with no rules.
    pub fn new() -> (r: AccessPolicy)
        ensures
            r.rules@.len() == 0,
    {
        AccessPolicy { rules: Vec::new() }
    }

    /// Adds `rule`, replacing any rule for the same identity and pattern; the
    /// new rule goes last.
    pub fn add_rule(&mut self, rule: AccessRule)
        ensures
            final(self).rules@ == without_slot(old(self).rules@, rule.identity@, rule.bundle_pattern@).push(rule),
    {
        let mut rules: Vec<AccessRule> = Vec::new();
        std::mem::swap(&mut rules, &mut self.rules);
        let (mut kept, _) = retain_slot(rules, rule.identity.as_str(), rule.bundle_pattern.as_str());
        kept.push(rule);
        self.rules = kept;
    }

    /// Removes the rules for `identity` and `bundle_pattern`; says whether there
    /// was one.
    pub fn remove_rule(&mut self, identity: &str, bundle_pattern: &str) -> (r: bool)
        ensures
            final(self).rules@ == without_slot(old(self).rules@, identity@, bundle_pattern@),
            r == exists|i: int| 0 <= i < old(self).rules@.len() && same_slot(#[trigger] old(self).rules@[i],
                identity@, bundle_pattern@),
    {
        let mut rules: Vec<AccessRule> = Vec::new();
        std::mem::swap(&mut rules, &mut self.rules);
        let (kept, dropped) = retain_slot(rules, identity, bundle_pattern);
        self.rules = kept;
        dropped
    }

    /// Whether some rule grants `permission` to `identity` on `bundle`.
    pub fn check(&self, identity: &str, bundle: &str, permission: &Permission) -> (r: bool)
        ensures
            r == exists|i: int| 0 <= i < self.rules@.len() && grants(#[trigger] self.rules@[i], identity@, bundle@,
                *permission),
    {
        let mut i: usize = 0;
        while i < self.rules.len()
            invariant
                i <= self.rules@.len(),
                forall|j: int| 0 <= j < i ==> !grants(#[trigger] self.rules@[j], identity@, bundle@, *permission),
            decreases self.rules@.len() - i,
        {
            let rule = &self.rules[i];
            if str_eq(rule.identity.as_str(), identity) && bundle_matches(rule.bundle_pattern.as_str(), bundle) {
                let mut k: usize = 0;
                while k < rule.permissions.len()
                    invariant
                        i < self.rules@.len(),
                        rule == self.rules@[i as int],
                        rule.identity@ == identity@,
                        pattern_matches(rule.bundle_pattern@, bundle@),
                        k <= rule.permissions@.len(),
                        forall|a: int| 0 <= a < k ==> rule.permissions@[a] != *permission,
                    decreases rule.permissions@.len() - k,
                {
                    if rule.permissions[k] == *permission {
                        assert(rule.permissions@[k as int] == *permission);
                        assert(grants(self.rules@[i as int], identity@, bundle@, *permission));
                        return true;
                    }
                    k = k + 1;
                }
            }
            i = i + 1;
        }
        false
    }

    /// The rules for `identity`, in order.
    pub fn list_for_identity(&self, identity: &str) -> (r: Vec<&AccessRule>)
        ensures
            r@.map_values(|x: &AccessRule| *x) == rules_for(self.rules@, identity@),
    {
        let ghost orig = self.rules@;
        let ghost pred = |x: AccessRule| x.identity@ == identity@;
        let mut out: Vec<&AccessRule> = Vec::new();
        let mut i: usize = 0;
        assert(orig.take(0) =~= Seq::<AccessRule>::empty());
        proof { reveal(Seq::filter); }
        while i < self.rules.len()
            invariant
                orig == self.rules@,
                i <= orig.len(),
                pred == (|x: AccessRule| x.identity@ == identity@),
                out@.map_values(|x: &AccessRule| *x) == orig.take(i as int).filter(pred),
            decreases orig.len() - i,
        {
            let ghost before = out@;
            assert(orig.take(i + 1).drop_last() =~= orig.take(i as int));
            proof { reveal(Seq::filter); }
            let rule = &self.rules[i];
            if str_eq(rule.identity.as_str(), identity) {
                out.push(rule);
                assert(out@.map_values(|x: &AccessRule| *x) =~= before.map_values(|x: &AccessRule| *x).push(*rule));
            }
            i = i + 1;
        }
        assert(orig.take(orig.len() as int) =~= orig);
        out
    }

    /// For each identity, in order of its first rule, the patterns of its rules.
    pub fn summary(&self) -> (r: StrMap<Vec<String>>)
        ensures
            r@ == summary_of(self.rules@),
    {
        let ghost orig = self.rules@;
        let mut m: StrMap<Vec<String>> = StrMap::new();
        let mut i: usize = 0;
        assert(orig.take(0) =~= Seq::<AccessRule>::empty());
        while i < self.rules.len()
            invariant
                orig == self.rules@,
                i <= orig.len(),
                m@ == summary_of(orig.take(i as int)),
            decreases orig.len() - i,
        {
            assert(orig.take(i + 1).drop_last() =~= orig.take(i as int));
            let rule = &self.rules[i];
            let ghost before = m@;
            proof { use_type_invariant(&m); }
            let p = owned(rule.bundle_pattern.as_str());
            match m.find(rule.identity.as_str()) {
                Some(j) => {
                    proof { lemma_lookup_at(before, j as int); }
                    let mut ps = m.replace_value(j, Vec::new());
                    let ghost old_ps = ps.deep_view();
                    ps.push(p);
                    assert(ps.deep_view() =~= old_ps.push(rule.bundle_pattern@));
                    m.set_value(j, ps);
                    assert(insert_spec(before, rule.identity@, old_ps.push(rule.bundle_pattern@))
                        == before.update(j as int, (rule.identity@, old_ps.push(rule.bundle_pattern@))));
                },
                None => {
                    let mut ps: Vec<String> = Vec::new();
                    ps.push(p);
                    assert(ps.deep_view() =~= Seq::<Seq<char>>::empty().push(rule.bundle_pattern@));
                    m.insert(owned(rule.identity.as_str()), ps);
                },
            }
            i = i + 1;
        }
        assert(orig.take(orig.len() as int) =~= orig);
        m
    }
}

/// At most one rule for each identity and pattern.
pub open spec fn slots_unique(rules: Seq<AccessRule>) -> bool {
    forall|i: int, j: int| 0 <= i < j < rules.len() ==> !same_slot(rules[i], rules[j].identity@, rules[j].bundle_pattern@)
}

/// `idx` lists increasing positions of `s` whose elements, in order, are `f`.
spec fn embeds(f: Seq<AccessRule>, s: Seq<AccessRule>, idx: Seq<int>) -> bool {
    &&& idx.len() == f.len()
    &&& forall|a: int| 0 <= a < idx.len() ==> 0 <= #[trigger] idx[a] < s.len() && f[a] == s[idx[a]]
    &&& forall|a: int, b: int| 0 <= a < b < idx.len() ==> #[trigger] idx[a] < #[trigger] idx[b]
}

proof fn lemma_filter_subseq(s: Seq<AccessRule>, p: spec_fn(AccessRule) -> bool)
    ensures
        exists|idx: Seq<int>| #[trigger] embeds(s.filter(p), s, idx),
    decreases s.len(),
{
    reveal(Seq::filter);
    if s.len() == 0 {
        assert(embeds(s.filter(p), s, Seq::<int>::empty()));
    } else {
        let sp = s.drop_last();
        lemma_filter_subseq(sp, p);
        let idx0 = choose|idx: Seq<int>| #[trigger] embeds(sp.filter(p), sp, idx);
        if p(s.last()) {
            let idx = idx0.push(s.len() - 1);
            assert(s.filter(p) == sp.filter(p).push(s.last()));
            assert forall|a: int| 0 <= a < idx.len() implies 0 <= #[trigger] idx[a] < s.len() && s.filter(p)[a] == s[idx[a]] by {
                if a < idx0.len() {
                    assert(idx[a] == idx0[a]);
                    assert(sp[idx0[a]] == s[idx0[a]]);
                }
            }
            assert forall|a: int, b: int| 0 <= a < b < idx.len() implies #[trigger] idx[a] < #[trigger] idx[b] by {
                if b < idx0.len() {
                    assert(idx[a] == idx0[a] && idx[b] == idx0[b]);
                } else {
                    assert(idx[a] == idx0[a]);
                }
            }
            assert(embeds(s.filter(p), s, idx));
        } else {
            assert(s.filter(p) == sp.filter(p));
            assert forall|a: int| 0 <= a < idx0.len() implies 0 <= #[trigger] idx0[a] < s.len() && s.filter(p)[a] == s[idx0[a]] by {
                assert(sp[idx0[a]] == s[idx0[a]]);
            }
            assert(embeds(s.filter(p), s, idx0));
        }
    }
}

/// Law: `add_rule` keeps at most one rule per identity and pattern, and the
/// rule it adds grants what it lists on the bundles its pattern matches.
pub proof fn law_add_rule(rules: Seq<AccessRule>, rule: AccessRule, bundle: Seq<char>, perm: Permission)
    requires
        slots_unique(rules),
    ensures
        slots_unique(without_slot(rules, rule.identity@, rule.bundle_pattern@).push(rule)),
        pattern_matches(rule.bundle_pattern@, bundle) && rule.permissions@.contains(perm) ==> exists|i: int|
            0 <= i < without_slot(rules, rule.identity@, rule.bundle_pattern@).push(rule).len() && grants(
            #[trigger] without_slot(rules, rule.identity@, rule.bundle_pattern@).push(rule)[i],
            rule.identity@,
            bundle,
            perm,
        ),
{
    let p = |r: AccessRule| !same_slot(r, rule.identity@, rule.bundle_pattern@);
    let f = rules.filter(p);
    let t = f.push(rule);
    broadcast use vstd::seq_lib::group_filter_ensures;
    lemma_filter_subseq(rules, p);
    let idx = choose|idx: Seq<int>| #[trigger] embeds(f, rules, idx);
    assert forall|i: int, j: int| 0 <= i < j < t.len() implies !same_slot(t[i], t[j].identity@, t[j].bundle_pattern@) by {
        if j == f.len() {
            assert(t[i] == f[i]);
            assert(p(f[i]));
        } else {
            assert(t[i] == f[i] && t[j] == f[j]);
            assert(f[i] == rules[idx[i]] && f[j] == rules[idx[j]]);
            assert(idx[i] < idx[j]);
        }
    }
    if pattern_matches(rule.bundle_pattern@, bundle) && rule.permissions@.contains(perm) {
        assert(grants(t[f.len() as int], rule.identity@, bundle, perm));
    }
}

/// Law: after `remove_rule` no rule is left for that identity and pattern.
pub proof fn law_remove_rule(rules: Seq<AccessRule>, identity: Seq<char>, pattern: Seq<char>)
    ensures
        forall|i: int| 0 <= i < without_slot(rules, identity, pattern).len() ==> !same_slot(
            #[trigger] without_slot(rules, identity, pattern)[i],
            identity,
            pattern,
        ),
{
    broadcast use vstd::seq_lib::group_filter_ensures;
}

} // verus!
