//! Aliases: alternative names for secret keys.

use vstd::prelude::*;
use vstd::string::StringExecFns;
use crate::error::VaultError;
use crate::strmap::{StrMap, as_map, has_key, insert_spec, key_index, keys_of, lemma_insert_unique, lemma_lookup_at, lemma_remove_unique, lookup, remove_spec, unique_keys};
use crate::text::{chars_of, char_views, owned, sort_indices, sorted_order};

verus! {

/// A map from alias to target key.
pub struct AliasMap {
    pub entries: StrMap<String>,
}

/// The message of the error for an alias that already exists.
pub open spec fn exists_msg(alias: Seq<char>) -> Seq<char> {
    "Alias '"@ + alias + "' already exists"@
}

/// The message of the error for an alias that does not exist.
pub open spec fn missing_msg(alias: Seq<char>) -> Seq<char> {
    "Alias '"@ + alias + "' not found"@
}

fn alias_exists_error(alias: &str) -> (r: VaultError)
    ensures
        r is InvalidInput,
        r.msg() == exists_msg(alias@),
{
    VaultError::InvalidInput(String::from_str("Alias '").concat(alias).concat("' already exists"))
}

fn alias_missing_error(alias: &str) -> (r: VaultError)
    ensures
        r is NotFound,
        r.msg() == missing_msg(alias@),
{
    VaultError::NotFound(String::from_str("Alias '").concat(alias).concat("' not found"))
}

impl AliasMap {
    /// An empty alias map.
    pub fn new() -> (r: AliasMap)
        ensures
            r.entries@.len() == 0,
    {
        AliasMap { entries: StrMap::new() }
    }

    /// Adds `alias` for `target`. Fails when either is empty or the alias exists.
    pub fn add(&mut self, alias: &str, target: &str) -> (r: Result<(), VaultError>)
        ensures
            alias@.len() == 0 || target@.len() == 0 ==> (r matches Err(e) && e is InvalidInput
                && e.msg() == "Alias and target must not be empty"@),
            alias@.len() > 0 && target@.len() > 0 && has_key(old(self).entries@, alias@) ==> (r matches Err(e)
                && e is InvalidInput && e.msg() == exists_msg(alias@)),
            r is Ok <==> alias@.len() > 0 && target@.len() > 0 && !has_key(old(self).entries@, alias@),
            r is Ok ==> final(self).entries@ == old(self).entries@.push((alias@, target@)),
            r is Err ==> final(self).entries@ == old(self).entries@,
    {
        if alias.is_empty() || target.is_empty() {
            return Err(VaultError::InvalidInput(String::from_str("Alias and target must not be empty")));
        }
        if self.entries.contains_key(alias) {
            return Err(alias_exists_error(alias));
        }
        self.entries.insert(owned(alias), owned(target));
        Ok(())
    }

    /// Removes `alias`. Fails when it does not exist.
    pub fn remove(&mut self, alias: &str) -> (r: Result<(), VaultError>)
        ensures
            r is Ok <==> has_key(old(self).entries@, alias@),
            final(self).entries@ == remove_spec(old(self).entries@, alias@),
            r matches Err(e) ==> e is NotFound && e.msg() == missing_msg(alias@),
    {
        match self.entries.remove(alias) {
            Some(_) => Ok(()),
            None => Err(alias_missing_error(alias)),
        }
    }

    /// The target of `alias`.
    pub fn resolve(&self, alias: &str) -> (r: Option<&String>)
        ensures
            match r {
                Some(t) => lookup(self.entries@, alias@) == Some(t@),
                None => lookup(self.entries@, alias@) is None,
            },
    {
        self.entries.get(alias)
    }

    /// All `(alias, target)` pairs, sorted by alias.
    pub fn list(&self) -> (r: Vec<(&String, &String)>)
        ensures
            exists|order: Seq<usize>| #![auto] sorted_order(keys_of(self.entries@), order)
                && r@.len() == order.len()
                && forall|i: int| 0 <= i < r@.len() ==> (r@[i].0@, r@[i].1@) == self.entries@[order[i] as int],
    {
        let n = self.entries.len();
        let keys = self.entries.key_chars();
        let order = sort_indices(&keys);
        let mut r: Vec<(&String, &String)> = Vec::new();
        let mut j: usize = 0;
        while j < order.len()
            invariant
                n == self.entries@.len(),
                sorted_order(keys_of(self.entries@), order@),
                j <= order@.len(),
                r@.len() == j,
                forall|a: int| 0 <= a < j ==> (#[trigger] r@[a].0@, r@[a].1@) == self.entries@[order@[a] as int],
            decreases order@.len() - j,
        {
            let p = order[j];
            assert((p as int) < keys_of(self.entries@).len());
            r.push((self.entries.key_at(p), self.entries.value_at(p)));
            j = j + 1;
        }
        r
    }

    /// Renames alias `old_alias` to `new_alias`, keeping its target. Fails when `old`
    /// does not exist or `new_alias` is another existing alias; the map is then
    /// unchanged.
    pub fn rename(&mut self, old_alias: &str, new_alias: &str) -> (r: Result<(), VaultError>)
        ensures
            !has_key(old(self).entries@, old_alias@) ==> (r matches Err(e) && e is NotFound && e.msg() == missing_msg(old_alias@)),
            has_key(old(self).entries@, old_alias@) && old_alias@ != new_alias@ && has_key(old(self).entries@, new_alias@)
                ==> (r matches Err(e) && e is InvalidInput && e.msg() == exists_msg(new_alias@)),
            r is Ok <==> has_key(old(self).entries@, old_alias@) && (old_alias@ == new_alias@ || !has_key(old(self).entries@, new_alias@)),
            r is Err ==> final(self).entries@ == old(self).entries@,
            r is Ok ==> final(self).entries@ == insert_spec(remove_spec(old(self).entries@, old_alias@), new_alias@,
                lookup(old(self).entries@, old_alias@)->0),
    {
        if !self.entries.contains_key(old_alias) {
            return Err(alias_missing_error(old_alias));
        }
        let same = crate::text::str_eq(old_alias, new_alias);
        if !same && self.entries.contains_key(new_alias) {
            return Err(alias_exists_error(new_alias));
        }
        let target = self.entries.remove(old_alias);
        match target {
            Some(t) => {
                self.entries.insert(owned(new_alias), t);
                Ok(())
            },
            None => Ok(()),
        }
    }
}

/// Law: after adding an alias, it resolves to its target; every other alias
/// resolves as before.
pub proof fn law_add_then_resolve(m: Seq<(Seq<char>, Seq<char>)>, alias: Seq<char>, target: Seq<char>, other: Seq<char>)
    requires
        unique_keys(m),
        !has_key(m, alias),
    ensures
        lookup(m.push((alias, target)), alias) == Some(target),
        other != alias ==> lookup(m.push((alias, target)), other) == lookup(m, other),
{
    assert(insert_spec(m, alias, target) == m.push((alias, target)));
    lemma_insert_unique(m, alias, target);
}

/// Law: a rename moves the target from the old alias to the new one and leaves
/// every other alias as it was.
pub proof fn law_rename_keeps_target(m: Seq<(Seq<char>, Seq<char>)>, from: Seq<char>, new_alias: Seq<char>, other: Seq<char>)
    requires
        unique_keys(m),
        has_key(m, from),
    ensures
        lookup(insert_spec(remove_spec(m, from), new_alias, lookup(m, from)->0), new_alias) == lookup(m, from),
        from != new_alias ==> lookup(insert_spec(remove_spec(m, from), new_alias, lookup(m, from)->0) , from) is None,
        other != from && other != new_alias ==> lookup(insert_spec(remove_spec(m, from), new_alias, lookup(m, from)->0), other)
            == lookup(m, other),
{
    lemma_remove_unique(m, from);
    let t = lookup(m, from)->0;
    lemma_insert_unique(remove_spec(m, from), new_alias, t);
    if from != new_alias {
        assert(lookup(remove_spec(m, from) , from) is None);
    }
}

} // verus!
