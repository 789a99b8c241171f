//! Pinned secrets: keys marked to be kept, each with a label and the time it was pinned.

use vstd::prelude::*;
use vstd::string::StringExecFns;
use crate::clock::unix_seconds;
use crate::error::VaultError;
use crate::strmap::{StrMap, has_key, insert_spec, lookup, remove_spec, unique_keys, lemma_insert_unique, lemma_remove_unique};
use crate::text::{blank, is_blank, owned, sort_by_stamp, sorted_by_stamp};

verus! {

/// A pinned key, its label and when it was pinned (seconds since the Unix epoch).
#[derive(Debug, Clone, PartialEq, Eq)]
pub struct PinnedSecret {
    pub key: String,
    pub label: Option<String>,
    pub pinned_at: u64,
}

impl DeepView for PinnedSecret {
    type V = PinnedSecret;

    open spec fn deep_view(&self) -> PinnedSecret {
        *self
    }
}

/// The pins, by key.
pub struct PinStore {
    pub pins: StrMap<PinnedSecret>,
}

/// The message for a key that is not pinned.
pub open spec fn no_pin_msg(key: Seq<char>) -> Seq<char> {
    "No pin found for key '"@ + key + "'"@
}

/// The stamps of the pins, in entry order.
pub open spec fn pin_stamps(s: Seq<(Seq<char>, PinnedSecret)>) -> Seq<u64> {
    s.map_values(|e: (Seq<char>, PinnedSecret)| e.1.pinned_at)
}

impl PinStore {
    /// A store with no pins.
    pub fn new() -> (r: PinStore)
        ensures
            r.pins@ == Seq::<(Seq<char>, PinnedSecret)>::empty(),
    {
        PinStore { pins: StrMap::new() }
    }

    /// Pins `key` with `label` at time `now`, replacing an earlier pin of it.
    /// Fails, changing nothing, when the key is blank.
    pub fn pin_at(&mut self, key: &str, label: Option<String>, now: u64) -> (r: Result<(), VaultError>)
        ensures
            is_blank(key@) ==> (r matches Err(e) && e is InvalidInput && e.msg() == "Pin key cannot be empty"@
                && final(self).pins@ == old(self).pins@),
            !is_blank(key@) ==> (r is Ok && exists|p: PinnedSecret| p.key@ == key@ && p.label == label && p.pinned_at == now
                && final(self).pins@ == insert_spec(old(self).pins@, key@, p)),
    {
        if blank(key) {
            return Err(VaultError::InvalidInput(String::from_str("Pin key cannot be empty")));
        }
        let p = PinnedSecret { key: owned(key), label, pinned_at: now };
        self.pins.insert(owned(key), p);
        Ok(())
    }

    /// Pins `key` with `label` at the current time. Fails when the key is blank,
    /// or when the clock cannot be read.
    pub fn pin(&mut self, key: &str, label: Option<String>) -> (r: Result<(), VaultError>)
        ensures
            is_blank(key@) ==> (r matches Err(e) && e is InvalidInput && e.msg() == "Pin key cannot be empty"@),
            r is Err ==> final(self).pins@ == old(self).pins@,
            r is Ok ==> exists|p: PinnedSecret| p.key@ == key@ && p.label == label
                && final(self).pins@ == insert_spec(old(self).pins@, key@, p),
    {
        if blank(key) {
            return Err(VaultError::InvalidInput(String::from_str("Pin key cannot be empty")));
        }
        match unix_seconds() {
            Ok(now) => self.pin_at(key, label, now),
            Err(e) => Err(VaultError::InvalidInput(e)),
        }
    }

    /// Unpins `key`; fails, changing nothing, when it is not pinned.
    pub fn unpin(&mut self, key: &str) -> (r: Result<(), VaultError>)
        ensures
            has_key(old(self).pins@, key@) ==> (r is Ok && final(self).pins@ == remove_spec(old(self).pins@, key@)),
            !has_key(old(self).pins@, key@) ==> (r matches Err(e) && e is NotFound && e.msg() == no_pin_msg(key@)
                && final(self).pins@ == old(self).pins@),
    {
        match self.pins.remove(key) {
            Some(_) => Ok(()),
            None => {
                let m = String::from_str("No pin found for key '").concat(key).concat("'");
                Err(VaultError::NotFound(m))
            },
        }
    }

    /// Whether `key` is pinned.
    pub fn is_pinned(&self, key: &str) -> (r: bool)
        ensures
            r == has_key(self.pins@, key@),
    {
        self.pins.contains_key(key)
    }

    /// Every pin, earliest first.
    pub fn list(&self) -> (r: Vec<&PinnedSecret>)
        ensures
            exists|order: Seq<usize>| #![auto] sorted_by_stamp(pin_stamps(self.pins@), order)
                && r@.len() == order.len()
                && forall|i: int| 0 <= i < r@.len() ==> *r@[i] == self.pins@[order[i] as int].1,
    {
        let n = self.pins.len();
        let mut stamps: Vec<u64> = Vec::new();
        let mut i: usize = 0;
        while i < n
            invariant
                n == self.pins@.len(),
                i <= n,
                stamps@ == pin_stamps(self.pins@).take(i as int),
            decreases n - i,
        {
            stamps.push(self.pins.value_at(i).pinned_at);
            i = i + 1;
            assert(stamps@ =~= pin_stamps(self.pins@).take(i as int));
        }
        assert(stamps@ =~= pin_stamps(self.pins@));
        let order = sort_by_stamp(&stamps);
        let mut r: Vec<&PinnedSecret> = Vec::new();
        let mut j: usize = 0;
        while j < order.len()
            invariant
                sorted_by_stamp(pin_stamps(self.pins@), order@),
                n == self.pins@.len(),
                j <= order@.len(),
                r@.len() == j,
                forall|a: int| 0 <= a < j ==> *(#[trigger] r@[a]) == self.pins@[order@[a] as int].1,
            decreases order@.len() - j,
        {
            let p = order[j];
            r.push(self.pins.value_at(p));
            j = j + 1;
        }
        assert(forall|a: int| 0 <= a < r@.len() ==> *r@[a] == self.pins@[order@[a] as int].1);
        r
    }

    /// The pin of `key`, if any.
    pub fn get(&self, key: &str) -> (r: Option<&PinnedSecret>)
        ensures
            match r {
                Some(p) => lookup(self.pins@, key@) == Some(*p),
                None => lookup(self.pins@, key@) is None,
            },
    {
        self.pins.get(key)
    }
}

/// Law: a key is pinned after it is pinned and not after it is unpinned; the
/// pins of other keys are untouched by either.
pub proof fn law_pin_unpin(s: Seq<(Seq<char>, PinnedSecret)>, key: Seq<char>, p: PinnedSecret, other: Seq<char>)
    requires
        unique_keys(s),
    ensures
        has_key(insert_spec(s, key, p), key),
        !has_key(remove_spec(insert_spec(s, key, p), key), key),
        other != key ==> lookup(insert_spec(s, key, p), other) == lookup(s, other),
        other != key ==> lookup(remove_spec(insert_spec(s, key, p), key), other) == lookup(s, other),
{
    lemma_insert_unique(s, key, p);
    lemma_remove_unique(insert_spec(s, key, p), key);
}

} // verus!
