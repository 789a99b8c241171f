//! Where the stores of access rules, aliases, keys and policies are kept.

use vstd::prelude::*;
use crate::path::{join_path, path_join};
use crate::policy::Policy;
use crate::text::{owned, str_eq};

verus! {

/// The file that holds the access policy.
pub struct AccessStore {
    path: String,
}

impl AccessStore {
    /// The store kept at `path`.
    pub fn new(path: &str) -> (r: AccessStore)
        ensures
            r.path_view() == path@,
    {
        AccessStore { path: owned(path) }
    }

    /// Where the store is kept.
    pub closed spec fn path_view(&self) -> Seq<char> {
        self.path@
    }

    /// Where the store is kept.
    pub fn path(&self) -> (r: &str)
        ensures
            r@ == self.path_view(),
    {
        self.path.as_str()
    }
}

/// The file that holds the aliases: `aliases.toml` in a directory.
pub struct AliasStore {
    path: String,
}

impl AliasStore {
    /// The store kept as `aliases.toml` in `dir`.
    pub fn new(dir: &str) -> (r: AliasStore)
        ensures
            r.path_view() == path_join(dir@, "aliases.toml"@),
    {
        AliasStore { path: join_path(dir, "aliases.toml") }
    }

    /// Where the store is kept.
    pub closed spec fn path_view(&self) -> Seq<char> {
        self.path@
    }

    /// Where the store is kept.
    pub fn path(&self) -> (r: &str)
        ensures
            r@ == self.path_view(),
    {
        self.path.as_str()
    }
}

/// The file that holds the keyring.
pub struct KeyringStore {
    path: String,
}

impl KeyringStore {
    /// The store kept at `path`.
    pub fn new(path: &str) -> (r: KeyringStore)
        ensures
            r.path_view() == path@,
    {
        KeyringStore { path: owned(path) }
    }

    /// Where the store is kept.
    pub closed spec fn path_view(&self) -> Seq<char> {
        self.path@
    }

    /// Where the store is kept.
    pub fn path(&self) -> (r: &str)
        ensures
            r@ == self.path_view(),
    {
        self.path.as_str()
    }
}

/// The file that holds the policies.
pub struct PolicyStore {
    path: String,
}

impl PolicyStore {
    /// The store kept at `path`.
    pub fn new(path: &str) -> (r: PolicyStore)
        ensures
            r.path_view() == path@,
    {
        PolicyStore { path: owned(path) }
    }

    /// Where the store is kept.
    pub closed spec fn path_view(&self) -> Seq<char> {
        self.path@
    }

    /// Where the store is kept.
    pub fn path(&self) -> (r: &str)
        ensures
            r@ == self.path_view(),
    {
        self.path.as_str()
    }

    /// The first policy named `name` among `policies` (as loaded from the store), if any.
    pub fn find<'a>(&self, policies: &'a [Policy], name: &str) -> (r: Option<&'a Policy>)
        ensures
            match r {
                Some(p) => exists|i: int| 0 <= i < policies@.len() && policies@[i] == *p && p.name@ == name@
                    && forall|j: int| 0 <= j < i ==> policies@[j].name@ != name@,
                None => forall|i: int| 0 <= i < policies@.len() ==> policies@[i].name@ != name@,
            },
    {
        let mut i: usize = 0;
        while i < policies.len()
            invariant
                i <= policies@.len(),
                forall|j: int| 0 <= j < i ==> policies@[j].name@ != name@,
            decreases policies@.len() - i,
        {
            if str_eq(policies[i].name.as_str(), name) {
                return Some(&policies[i]);
            }
            i = i + 1;
        }
        None
    }

    /// Replaces, among `policies` (as loaded from the store), the first policy
    /// with the same name as `policy`, or adds it at the end.
    pub fn upsert(&self, policies: &mut Vec<Policy>, policy: Policy)
        ensures
            (exists|i: int| 0 <= i < old(policies)@.len() && old(policies)@[i].name@ == policy.name@) ==> exists|i: int|
                0 <= i < old(policies)@.len() && old(policies)@[i].name@ == policy.name@ && (forall|j: int|
                0 <= j < i ==> old(policies)@[j].name@ != policy.name@) && final(policies)@ == old(policies)@.update(i, policy),
            (forall|i: int| 0 <= i < old(policies)@.len() ==> old(policies)@[i].name@ != policy.name@) ==> final(policies)@
                == old(policies)@.push(policy),
    {
        let mut i: usize = 0;
        while i < policies.len()
            invariant
                policies@ == old(policies)@,
                i <= policies@.len(),
                forall|j: int| 0 <= j < i ==> policies@[j].name@ != policy.name@,
            decreases policies@.len() - i,
        {
            if str_eq(policies[i].name.as_str(), policy.name.as_str()) {
                let ghost before = policies@;
                policies.set(i, policy);
                assert(policies@ == before.update(i as int, policy));
                return;
            }
            i = i + 1;
        }
        policies.push(policy);
    }

    /// Removes every policy named `name` from `policies` (as loaded from the
    /// store); says whether there was one.
    pub fn remove(&self, policies: &mut Vec<Policy>, name: &str) -> (r: bool)
        ensures
            final(policies)@ == old(policies)@.filter(|p: Policy| p.name@ != name@),
            r == exists|i: int| 0 <= i < old(policies)@.len() && (#[trigger] old(policies)@[i]).name@ == name@,
    {
        let ghost orig = policies@;
        let ghost keep = |p: Policy| p.name@ != name@;
        let mut rest: Vec<Policy> = Vec::new();
        std::mem::swap(&mut rest, policies);
        let n = rest.len();
        let mut kept: Vec<Policy> = Vec::new();
        let mut dropped = false;
        let mut i: usize = 0;
        assert(orig.take(0) =~= Seq::<Policy>::empty());
        proof { reveal(Seq::filter); }
        while rest.len() > 0
            invariant
                n == orig.len(),
                i + rest@.len() == n,
                rest@ == orig.skip(i as int),
                keep == (|p: Policy| p.name@ != name@),
                kept@ == orig.take(i as int).filter(keep),
                dropped == exists|j: int| 0 <= j < i && (#[trigger] orig[j]).name@ == name@,
            decreases rest@.len(),
        {
            let x = rest.remove(0);
            assert(x == orig[i as int]);
            assert(orig.take(i + 1).drop_last() =~= orig.take(i as int));
            proof { reveal(Seq::filter); }
            if str_eq(x.name.as_str(), name) {
                dropped = true;
            } else {
                kept.push(x);
            }
            assert(rest@ =~= orig.skip(i + 1));
            i = i + 1;
        }
        assert(orig.take(n as int) =~= orig);
        *policies = kept;
        dropped
    }
}

} // verus!
