//! A keyring of GPG keys, each known by an alias.

use vstd::prelude::*;
use vstd::string::StringExecFns;
use crate::error::VaultError;
use crate::strmap::{StrMap, has_key, key_index, keys_of, lookup, remove_spec, unique_keys, lemma_key_index, lemma_lookup_at, lemma_remove_unique};
use crate::text::{owned, sorted_order};

verus! {

/// A GPG key: its alias, fingerprint and optional e-mail and description.
#[derive(Debug, Clone, PartialEq, Eq)]
pub struct KeyEntry {
    pub alias: String,
    pub fingerprint: String,
    pub email: Option<String>,
    pub description: Option<String>,
}

impl DeepView for KeyEntry {
    type V = KeyEntry;

    open spec fn deep_view(&self) -> KeyEntry {
        *self
    }
}

impl KeyEntry {
    /// A key with no e-mail and no description.
    pub fn new(alias: &str, fingerprint: &str) -> (r: KeyEntry)
        ensures
            r.alias@ == alias@,
            r.fingerprint@ == fingerprint@,
            r.email is None,
            r.description is None,
    {
        KeyEntry { alias: owned(alias), fingerprint: owned(fingerprint), email: None, description: None }
    }

    /// The key with its e-mail set.
    pub fn with_email(self, email: &str) -> (r: KeyEntry)
        ensures
            r.alias == self.alias,
            r.fingerprint == self.fingerprint,
            r.description == self.description,
            r.email matches Some(e) && e@ == email@,
    {
        KeyEntry { email: Some(owned(email)), ..self }
    }

    /// The key with its description set.
    pub fn with_description(self, desc: &str) -> (r: KeyEntry)
        ensures
            r.alias == self.alias,
            r.fingerprint == self.fingerprint,
            r.email == self.email,
            r.description matches Some(d) && d@ == desc@,
    {
        KeyEntry { description: Some(owned(desc)), ..self }
    }
}

/// The keys of a keyring, by alias. Each entry is filed under its own alias.
pub struct Keyring {
    keys: StrMap<KeyEntry>,
}

impl View for Keyring {
    type V = Seq<(Seq<char>, KeyEntry)>;

    closed spec fn view(&self) -> Seq<(Seq<char>, KeyEntry)> {
        self.keys@
    }
}

/// Every entry is filed under its own alias.
pub open spec fn filed_by_alias(s: Seq<(Seq<char>, KeyEntry)>) -> bool {
    forall|i: int| 0 <= i < s.len() ==> (#[trigger] s[i]).1.alias@ == s[i].0
}

/// The message for an alias that is already taken.
pub open spec fn taken_msg(alias: Seq<char>) -> Seq<char> {
    "Key alias '"@ + alias + "' already exists"@
}

/// The message for an unknown alias.
pub open spec fn unknown_msg(alias: Seq<char>) -> Seq<char> {
    "Key alias '"@ + alias + "' not found"@
}

impl Keyring {
    #[verifier::type_invariant]
    spec fn wf(self) -> bool {
        filed_by_alias(self.keys@)
    }

    /// An empty keyring.
    pub fn new() -> (r: Keyring)
        ensures
            r@ == Seq::<(Seq<char>, KeyEntry)>::empty(),
    {
        Keyring { keys: StrMap::new() }
    }

    /// Adds a key under its alias; fails, changing nothing, when the alias is taken.
    pub fn add(&mut self, entry: KeyEntry) -> (r: Result<(), VaultError>)
        ensures
            has_key(old(self)@, entry.alias@) ==> (r matches Err(e) && e is Config && e.msg() == taken_msg(entry.alias@)
                && final(self)@ == old(self)@),
            !has_key(old(self)@, entry.alias@) ==> (r is Ok && final(self)@ == old(self)@.push((entry.alias@, entry))),
    {
        proof { use_type_invariant(&*self); }
        if self.keys.contains_key(entry.alias.as_str()) {
            let m = String::from_str("Key alias '").concat(entry.alias.as_str()).concat("' already exists");
            return Err(VaultError::Config(m));
        }
        let ghost before = self.keys@;
        let mut keys = StrMap::new();
        std::mem::swap(&mut keys, &mut self.keys);
        let k = owned(entry.alias.as_str());
        keys.insert(k, entry);
        assert(keys@ == before.push((entry.alias@, entry)));
        assert(filed_by_alias(keys@)) by {
            assert forall|i: int| 0 <= i < keys@.len() implies (#[trigger] keys@[i]).1.alias@ == keys@[i].0 by {
                if i < before.len() {
                    assert(keys@[i] == before[i]);
                }
            }
        }
        self.keys = keys;
        Ok(())
    }

    /// Removes and returns the key with `alias`; fails, changing nothing, when there is none.
    pub fn remove(&mut self, alias: &str) -> (r: Result<KeyEntry, VaultError>)
        ensures
            has_key(old(self)@, alias@) ==> (r matches Ok(e) && lookup(old(self)@, alias@) == Some(e)
                && final(self)@ == remove_spec(old(self)@, alias@)),
            !has_key(old(self)@, alias@) ==> (r matches Err(e) && e is Config && e.msg() == unknown_msg(alias@)
                && final(self)@ == old(self)@),
    {
        proof { use_type_invariant(&*self); }
        let ghost before = self.keys@;
        let mut keys = StrMap::new();
        std::mem::swap(&mut keys, &mut self.keys);
        let removed = keys.remove(alias);
        proof {
            if has_key(before, alias@) {
                let n = key_index(before, alias@);
                assert forall|i: int| 0 <= i < keys@.len() implies (#[trigger] keys@[i]).1.alias@ == keys@[i].0 by {
                    if i < n {
                        assert(keys@[i] == before[i]);
                    } else {
                        assert(keys@[i] == before[i + 1]);
                    }
                }
            }
        }
        self.keys = keys;
        match removed {
            Some(e) => Ok(e),
            None => {
                let m = String::from_str("Key alias '").concat(alias).concat("' not found");
                Err(VaultError::Config(m))
            },
        }
    }

    /// The key with `alias`, if any.
    pub fn get(&self, alias: &str) -> (r: Option<&KeyEntry>)
        ensures
            unique_keys(self@),
            filed_by_alias(self@),
            match r {
                Some(e) => lookup(self@, alias@) == Some(*e) && e.alias@ == alias@,
                None => lookup(self@, alias@) is None,
            },
    {
        proof {
            use_type_invariant(self);
            use_type_invariant(&self.keys);
            if has_key(self@, alias@) {
                lemma_key_index(self@, alias@);
            }
        }
        self.keys.get(alias)
    }

    /// Every key, in order of alias.
    pub fn list(&self) -> (r: Vec<&KeyEntry>)
        ensures
            unique_keys(self@),
            filed_by_alias(self@),
            exists|order: Seq<usize>| #![auto] sorted_order(keys_of(self@), order)
                && r@.len() == order.len()
                && forall|i: int| 0 <= i < r@.len() ==> *r@[i] == self@[order[i] as int].1
                    && r@[i].alias@ == self@[order[i] as int].0,
    {
        proof {
            use_type_invariant(self);
            use_type_invariant(&self.keys);
        }
        let order = self.keys.sorted_indices();
        let mut r: Vec<&KeyEntry> = Vec::new();
        let mut j: usize = 0;
        while j < order.len()
            invariant
                sorted_order(keys_of(self.keys@), order@),
                j <= order@.len(),
                r@.len() == j,
                forall|a: int| 0 <= a < j ==> *(#[trigger] r@[a]) == self.keys@[order@[a] as int].1,
            decreases order@.len() - j,
        {
            let p = order[j];
            assert((p as int) < keys_of(self.keys@).len());
            r.push(self.keys.value_at(p));
            j = j + 1;
        }
        assert(self@ == self.keys@);
        assert(forall|i: int| 0 <= i < r@.len() ==> *r@[i] == self@[order@[i] as int].1);
        r
    }

    /// The number of keys.
    pub fn len(&self) -> (r: usize)
        ensures
            r == self@.len(),
            unique_keys(self@),
            filed_by_alias(self@),
    {
        proof {
            use_type_invariant(self);
            use_type_invariant(&self.keys);
        }
        self.keys.len()
    }

    /// Whether the keyring has no keys.
    pub fn is_empty(&self) -> (r: bool)
        ensures
            r == (self@.len() == 0),
    {
        self.keys.is_empty()
    }
}

/// Law: after adding a key under a free alias, looking the alias up gives the
/// key, other aliases are unaffected, and removing the alias gives back the
/// keyring as it was.
pub proof fn law_add_get_remove(s: Seq<(Seq<char>, KeyEntry)>, entry: KeyEntry, other: Seq<char>)
    requires
        unique_keys(s),
        !has_key(s, entry.alias@),
    ensures
        lookup(s.push((entry.alias@, entry)), entry.alias@) == Some(entry),
        other != entry.alias@ ==> lookup(s.push((entry.alias@, entry)), other) == lookup(s, other),
        remove_spec(s.push((entry.alias@, entry)), entry.alias@) == s,
{
    let t = s.push((entry.alias@, entry));
    assert(unique_keys(t)) by {
        assert forall|i: int, j: int| 0 <= i < j < t.len() implies t[i].0 != t[j].0 by {
            if j == s.len() {
                assert(t[i] == s[i]);
            } else {
                assert(t[i] == s[i] && t[j] == s[j]);
            }
        }
    }
    lemma_lookup_at(t, s.len() as int);
    lemma_remove_unique(t, entry.alias@);
    assert(t.remove(s.len() as int) =~= s);
    if other != entry.alias@ {
        if has_key(s, other) {
            let j = key_index(s, other);
            lemma_lookup_at(s, j);
            assert(t[j] == s[j]);
            lemma_lookup_at(t, j);
        } else {
            if has_key(t, other) {
                let j = key_index(t, other);
                assert(j < s.len());
                assert(s[j] == t[j]);
            }
        }
    }
}

/// Law: every key a listing shows (the entry at `order[i]` of a keyring whose
/// aliases are unique and whose entries are filed under their own aliases) is
/// found again under its alias, and no other listed entry has that alias.
pub proof fn law_listed_key_is_found(s: Seq<(Seq<char>, KeyEntry)>, order: Seq<usize>, i: int, j: int)
    requires
        unique_keys(s),
        filed_by_alias(s),
        sorted_order(keys_of(s), order),
        0 <= i < order.len(),
        0 <= j < order.len(),
    ensures
        lookup(s, s[order[i] as int].1.alias@) == Some(s[order[i] as int].1),
        i != j ==> s[order[i] as int].1.alias@ != s[order[j] as int].1.alias@,
{
    let a = order[i] as int;
    let b = order[j] as int;
    assert(keys_of(s)[a] == s[a].0);
    assert(s[a].1.alias@ == s[a].0);
    lemma_lookup_at(s, a);
    if i != j {
        assert(order[i] != order[j]);
        assert(s[b].1.alias@ == s[b].0);
    }
}

} // verus!
