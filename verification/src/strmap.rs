//! An association list from string keys to values, in insertion order,
//! in which no key occurs twice.

use vstd::prelude::*;
use vstd::string::StringExecFns;
use crate::text::{char_views, chars_of, sort_indices, sorted_order};

verus! {

/// The keys of an association list, in order.
pub open spec fn keys_of<V>(s: Seq<(Seq<char>, V)>) -> Seq<Seq<char>> {
    s.map_values(|p: (Seq<char>, V)| p.0)
}

/// No key occurs twice.
pub open spec fn unique_keys<V>(s: Seq<(Seq<char>, V)>) -> bool {
    forall|i: int, j: int| 0 <= i < j < s.len() ==> s[i].0 != s[j].0
}

/// `k` is the key of some entry.
pub open spec fn has_key<V>(s: Seq<(Seq<char>, V)>, k: Seq<char>) -> bool {
    exists|i: int| 0 <= i < s.len() && s[i].0 == k
}

/// The position of the entry with key `k` (meaningful when `has_key(s, k)`).
pub open spec fn key_index<V>(s: Seq<(Seq<char>, V)>, k: Seq<char>) -> int {
    choose|i: int| 0 <= i < s.len() && s[i].0 == k
}

/// The value stored under `k`, if any.
pub open spec fn lookup<V>(s: Seq<(Seq<char>, V)>, k: Seq<char>) -> Option<V> {
    if has_key(s, k) {
        Some(s[key_index(s, k)].1)
    } else {
        None
    }
}

/// The association list as a finite map.
pub open spec fn as_map<V>(s: Seq<(Seq<char>, V)>) -> Map<Seq<char>, V> {
    Map::new(|k: Seq<char>| has_key(s, k), |k: Seq<char>| s[key_index(s, k)].1)
}

/// The list after inserting `v` under `k`: the value of an existing entry is
/// replaced in place, a new key is appended at the end.
pub open spec fn insert_spec<V>(s: Seq<(Seq<char>, V)>, k: Seq<char>, v: V) -> Seq<(Seq<char>, V)> {
    if has_key(s, k) {
        s.update(key_index(s, k), (k, v))
    } else {
        s.push((k, v))
    }
}

/// The list without the entry for `k` (unchanged when there is none).
pub open spec fn remove_spec<V>(s: Seq<(Seq<char>, V)>, k: Seq<char>) -> Seq<(Seq<char>, V)> {
    if has_key(s, k) {
        s.remove(key_index(s, k))
    } else {
        s
    }
}

/// The keys of `s`, in order, that are (`shared`) or are not (`!shared`) keys of `t`.
pub open spec fn keys_by_presence<A, B>(t: Seq<(Seq<char>, A)>, s: Seq<(Seq<char>, B)>, shared: bool) -> Seq<Seq<char>>
    decreases s.len(),
{
    if s.len() == 0 {
        Seq::empty()
    } else {
        let rest = keys_by_presence(t, s.drop_last(), shared);
        if has_key(t, s.last().0) == shared {
            rest.push(s.last().0)
        } else {
            rest
        }
    }
}

/// The keys of `s` not in `t` are none exactly when every key of `s` is in `t`;
/// every listed key is a key of `s`.
pub proof fn lemma_keys_by_presence<A, B>(t: Seq<(Seq<char>, A)>, s: Seq<(Seq<char>, B)>, shared: bool)
    ensures
        keys_by_presence(t, s, shared).len() == 0 <==> forall|j: int| 0 <= j < s.len() ==> has_key(t, #[trigger] s[j].0) != shared,
        forall|k: int| 0 <= k < keys_by_presence(t, s, shared).len() ==>
            has_key(s, #[trigger] keys_by_presence(t, s, shared)[k])
            && has_key(t, keys_by_presence(t, s, shared)[k]) == shared,
    decreases s.len(),
{
    if s.len() > 0 {
        let sp = s.drop_last();
        lemma_keys_by_presence(t, sp, shared);
        let ks = keys_by_presence(t, s, shared);
        assert forall|k: int| 0 <= k < ks.len() implies has_key(s, #[trigger] ks[k]) && has_key(t, ks[k]) == shared by {
            if k < keys_by_presence(t, sp, shared).len() {
                let w = key_index(sp, ks[k]);
                assert(s[w] == sp[w]);
            } else {
                assert(s[s.len() - 1].0 == ks[k]);
            }
        }
        if ks.len() == 0 {
            assert forall|j: int| 0 <= j < s.len() implies has_key(t, #[trigger] s[j].0) != shared by {
                if j < s.len() - 1 {
                    assert(s[j] == sp[j]);
                }
            }
        } else {
            if forall|j: int| 0 <= j < s.len() ==> has_key(t, #[trigger] s[j].0) != shared {
                assert forall|j: int| 0 <= j < sp.len() implies has_key(t, #[trigger] sp[j].0) != shared by {
                    assert(sp[j] == s[j]);
                }
                assert(has_key(t, s[s.len() - 1].0) != shared);
            }
        }
    }
}

/// In a list with unique keys, the entry at `i` is the one found for its key.
pub proof fn lemma_lookup_at<V>(s: Seq<(Seq<char>, V)>, i: int)
    requires
        unique_keys(s),
        0 <= i < s.len(),
    ensures
        has_key(s, s[i].0),
        key_index(s, s[i].0) == i,
        lookup(s, s[i].0) == Some(s[i].1),
        as_map(s).contains_key(s[i].0),
        as_map(s)[s[i].0] == s[i].1,
{
    let k = s[i].0;
    assert(0 <= i < s.len() && s[i].0 == k);
    let j = key_index(s, k);
    assert(0 <= j < s.len() && s[j].0 == k);
    if j < i {
        assert(s[j].0 != s[i].0);
    } else if i < j {
        assert(s[i].0 != s[j].0);
    }
}

/// Facts on the position of a key in a list with unique keys.
pub proof fn lemma_key_index<V>(s: Seq<(Seq<char>, V)>, k: Seq<char>)
    requires
        unique_keys(s),
        has_key(s, k),
    ensures
        0 <= key_index(s, k) < s.len(),
        s[key_index(s, k)].0 == k,
        forall|i: int| 0 <= i < s.len() && s[i].0 == k ==> i == key_index(s, k),
{
    let j = key_index(s, k);
    assert forall|i: int| 0 <= i < s.len() && s[i].0 == k implies i == j by {
        lemma_lookup_at(s, i);
    }
}

/// Inserting keeps keys unique.
pub proof fn lemma_insert_unique<V>(s: Seq<(Seq<char>, V)>, k: Seq<char>, v: V)
    requires
        unique_keys(s),
    ensures
        unique_keys(insert_spec(s, k, v)),
        has_key(insert_spec(s, k, v), k),
        lookup(insert_spec(s, k, v), k) == Some(v),
        forall|k2: Seq<char>| k2 != k ==> lookup(insert_spec(s, k, v), k2) == lookup(s, k2),
        as_map(insert_spec(s, k, v)) == as_map(s).insert(k, v),
{
    let t = insert_spec(s, k, v);
    if has_key(s, k) {
        lemma_key_index(s, k);
    }
    assert(unique_keys(t));
    let n = if has_key(s, k) { key_index(s, k) } else { s.len() as int };
    assert(t[n].0 == k && t[n].1 == v);
    lemma_lookup_at(t, n);
    assert forall|k2: Seq<char>| k2 != k implies lookup(t, k2) == lookup(s, k2) by {
        if has_key(s, k2) {
            let j = key_index(s, k2);
            lemma_key_index(s, k2);
            assert(t[j] == s[j]);
            lemma_lookup_at(t, j);
        }
        if has_key(t, k2) {
            let j = key_index(t, k2);
            assert(t[j] == s[j]);
            assert(has_key(s, k2));
        }
    }
    assert forall|k2: Seq<char>| #[trigger] as_map(t).contains_key(k2) == as_map(s).insert(k, v).contains_key(k2)
        && (as_map(t).contains_key(k2) ==> as_map(t)[k2] == as_map(s).insert(k, v)[k2]) by {
        if k2 != k {
            assert(lookup(t, k2) == lookup(s, k2));
        }
    }
    assert(as_map(t) =~= as_map(s).insert(k, v));
}

/// Removing keeps keys unique.
pub proof fn lemma_remove_unique<V>(s: Seq<(Seq<char>, V)>, k: Seq<char>)
    requires
        unique_keys(s),
    ensures
        unique_keys(remove_spec(s, k)),
        !has_key(remove_spec(s, k), k),
        forall|k2: Seq<char>| k2 != k ==> lookup(remove_spec(s, k), k2) == lookup(s, k2),
        as_map(remove_spec(s, k)) == as_map(s).remove(k),
{
    let t = remove_spec(s, k);
    if has_key(s, k) {
        lemma_key_index(s, k);
        let n = key_index(s, k);
        assert(unique_keys(t)) by {
            assert forall|i: int, j: int| 0 <= i < j < t.len() implies t[i].0 != t[j].0 by {
                let a = if i < n { i } else { i + 1 };
                let b = if j < n { j } else { j + 1 };
                assert(t[i] == s[a]);
                assert(t[j] == s[b]);
            }
        }
        assert forall|k2: Seq<char>| k2 != k implies lookup(t, k2) == lookup(s, k2) by {
            if has_key(s, k2) {
                let j = key_index(s, k2);
                lemma_key_index(s, k2);
                let jj = if j < n { j } else { j - 1 };
                assert(t[jj] == s[j]);
                lemma_lookup_at(t, jj);
            }
            if has_key(t, k2) {
                let j = key_index(t, k2);
                let jj = if j < n { j } else { j + 1 };
                assert(t[j] == s[jj]);
                assert(has_key(s, k2));
            }
        }
        assert(!has_key(t, k)) by {
            if has_key(t, k) {
                let j = key_index(t, k);
                let jj = if j < n { j } else { j + 1 };
                assert(t[j] == s[jj]);
            }
        }
    }
    assert forall|k2: Seq<char>| #[trigger] as_map(t).contains_key(k2) == as_map(s).remove(k).contains_key(k2)
        && (as_map(t).contains_key(k2) ==> as_map(t)[k2] == as_map(s).remove(k)[k2]) by {
        if k2 != k {
            assert(lookup(t, k2) == lookup(s, k2));
        }
    }
    assert(as_map(t) =~= as_map(s).remove(k));
}

spec fn entries_view<V: DeepView>(e: Seq<(String, V)>) -> Seq<(Seq<char>, V::V)> {
    e.map_values(|p: (String, V)| (p.0@, p.1.deep_view()))
}

/// As maps, two lists with unique keys are equal when each key of one has the
/// same value in the other.
pub proof fn lemma_as_map_ext<V>(a: Seq<(Seq<char>, V)>, b: Seq<(Seq<char>, V)>)
    requires
        unique_keys(a),
        unique_keys(b),
        forall|i: int| 0 <= i < a.len() ==> lookup(b, #[trigger] a[i].0) == Some(a[i].1),
        forall|j: int| 0 <= j < b.len() ==> has_key(a, #[trigger] b[j].0),
    ensures
        as_map(a) == as_map(b),
{
    assert forall|k: Seq<char>| #[trigger] as_map(a).contains_key(k) == as_map(b).contains_key(k)
        && (as_map(a).contains_key(k) ==> as_map(a)[k] == as_map(b)[k]) by {
        if has_key(a, k) {
            let i = key_index(a, k);
            lemma_lookup_at(a, i);
            assert(lookup(b, a[i].0) == Some(a[i].1));
        }
        if has_key(b, k) {
            let j = key_index(b, k);
            assert(has_key(a, b[j].0));
        }
    }
    assert(as_map(a) =~= as_map(b));
}

/// A map from string keys to values that keeps its entries in insertion order.
#[derive(Debug)]
pub struct StrMap<V: DeepView> {
    entries: Vec<(String, V)>,
}

impl<V: DeepView> View for StrMap<V> {
    type V = Seq<(Seq<char>, V::V)>;

    closed spec fn view(&self) -> Seq<(Seq<char>, V::V)> {
        entries_view(self.entries@)
    }
}

impl<V: DeepView> StrMap<V> {
    /// No key occurs twice.
    #[verifier::type_invariant]
    pub open spec fn inv(self) -> bool {
        unique_keys(self@)
    }

    /// The entries as a finite map.
    pub open spec fn map(self) -> Map<Seq<char>, V::V> {
        as_map(self@)
    }

    /// An empty map.
    pub fn new() -> (r: Self)
        ensures
            r@ == Seq::<(Seq<char>, V::V)>::empty(),
    {
        let r = StrMap { entries: Vec::new() };
        assert(r@ =~= Seq::<(Seq<char>, V::V)>::empty());
        r
    }

    /// The number of entries.
    pub fn len(&self) -> (r: usize)
        ensures
            r == self@.len(),
    {
        self.entries.len()
    }

    /// Whether the map has no entries.
    pub fn is_empty(&self) -> (r: bool)
        ensures
            r == (self@.len() == 0),
    {
        self.entries.len() == 0
    }

    /// The key of the `i`-th entry.
    pub fn key_at(&self, i: usize) -> (r: &String)
        requires
            i < self@.len(),
        ensures
            r@ == self@[i as int].0,
    {
        &self.entries[i].0
    }

    /// The value of the `i`-th entry.
    pub fn value_at(&self, i: usize) -> (r: &V)
        requires
            i < self@.len(),
        ensures
            r.deep_view() == self@[i as int].1,
    {
        &self.entries[i].1
    }

    /// The position of the entry for `k`, if there is one.
    pub fn find(&self, k: &str) -> (r: Option<usize>)
        ensures
            match r {
                Some(i) => i < self@.len() && self@[i as int].0 == k@ && key_index(self@, k@) == i,
                None => !has_key(self@, k@),
            },
    {
        proof { use_type_invariant(self); }
        let ks = String::from_str(k);
        let mut i: usize = 0;
        while i < self.entries.len()
            invariant
                i <= self@.len(),
                self@.len() == self.entries@.len(),
                ks@ == k@,
                unique_keys(self@),
                forall|j: int| 0 <= j < i ==> self@[j].0 != k@,
            decreases self.entries@.len() - i,
        {
            if self.entries[i].0 == ks {
                proof { lemma_lookup_at(self@, i as int); }
                return Some(i);
            }
            i = i + 1;
        }
        None
    }

    /// Whether there is an entry for `k`.
    pub fn contains_key(&self, k: &str) -> (r: bool)
        ensures
            r == has_key(self@, k@),
            r == self.map().contains_key(k@),
    {
        match self.find(k) {
            Some(i) => true,
            None => false,
        }
    }

    /// The value stored under `k`.
    pub fn get(&self, k: &str) -> (r: Option<&V>)
        ensures
            match r {
                Some(v) => lookup(self@, k@) == Some(v.deep_view()),
                None => lookup(self@, k@) is None,
            },
    {
        match self.find(k) {
            Some(i) => Some(&self.entries[i].1),
            None => None,
        }
    }

    /// The characters of every key, in order.
    pub fn key_chars(&self) -> (r: Vec<Vec<char>>)
        ensures
            char_views(r@) == keys_of(self@),
    {
        let n = self.entries.len();
        let mut keys: Vec<Vec<char>> = Vec::new();
        let mut i: usize = 0;
        while i < n
            invariant
                n == self@.len(),
                i <= n,
                char_views(keys@) == keys_of(self@).take(i as int),
            decreases n - i,
        {
            let ghost before = keys@;
            let cs = chars_of(self.entries[i].0.as_str());
            keys.push(cs);
            assert(char_views(before.push(cs)) =~= char_views(before).push(cs@));
            assert(keys_of(self@).take(i + 1) =~= keys_of(self@).take(i as int).push(keys_of(self@)[i as int]));
            assert(char_views(keys@) =~= keys_of(self@).take(i + 1));
            i = i + 1;
        }
        assert(keys_of(self@).take(n as int) =~= keys_of(self@));
        keys
    }

    /// The positions of the entries in increasing order of their keys.
    pub fn sorted_indices(&self) -> (r: Vec<usize>)
        ensures
            sorted_order(keys_of(self@), r@),
    {
        let keys = self.key_chars();
        sort_indices(&keys)
    }

    /// Replaces the value of the `i`-th entry, keeping its key and place.
    pub fn set_value(&mut self, i: usize, v: V)
        requires
            i < old(self)@.len(),
        ensures
            final(self)@ == old(self)@.update(i as int, (old(self)@[i as int].0, v.deep_view())),
    {
        proof { use_type_invariant(&*self); }
        let ghost before = self@;
        let ghost vv = v.deep_view();
        let mut entries: Vec<(String, V)> = Vec::new();
        std::mem::swap(&mut entries, &mut self.entries);
        let old_entry = entries.remove(i);
        let k = old_entry.0;
        entries.insert(i, (k, v));
        assert(entries_view(entries@) =~= before.update(i as int, (before[i as int].0, vv)));
        assert(unique_keys(before.update(i as int, (before[i as int].0, vv)))) by {
            let t = before.update(i as int, (before[i as int].0, vv));
            assert forall|a: int, b: int| 0 <= a < b < t.len() implies t[a].0 != t[b].0 by {
                assert(t[a].0 == before[a].0 && t[b].0 == before[b].0);
            }
        }
        self.entries = entries;
    }

    /// Replaces the value of the `i`-th entry, keeping its key and place, and
    /// returns the value it had.
    pub fn replace_value(&mut self, i: usize, v: V) -> (r: V)
        requires
            i < old(self)@.len(),
        ensures
            final(self)@ == old(self)@.update(i as int, (old(self)@[i as int].0, v.deep_view())),
            r.deep_view() == old(self)@[i as int].1,
    {
        proof { use_type_invariant(&*self); }
        let ghost before = self@;
        let ghost vv = v.deep_view();
        let mut entries: Vec<(String, V)> = Vec::new();
        std::mem::swap(&mut entries, &mut self.entries);
        let old_entry = entries.remove(i);
        let (k, old_v) = old_entry;
        entries.insert(i, (k, v));
        assert(entries_view(entries@) =~= before.update(i as int, (before[i as int].0, vv)));
        assert(unique_keys(before.update(i as int, (before[i as int].0, vv)))) by {
            let t = before.update(i as int, (before[i as int].0, vv));
            assert forall|a: int, b: int| 0 <= a < b < t.len() implies t[a].0 != t[b].0 by {
                assert(t[a].0 == before[a].0 && t[b].0 == before[b].0);
            }
        }
        self.entries = entries;
        old_v
    }

    /// Stores `v` under `k`: an existing entry keeps its place and gets the new
    /// value, otherwise the entry goes at the end. Returns the old value.
    pub fn insert(&mut self, k: String, v: V) -> (r: Option<V>)
        ensures
            final(self)@ == insert_spec(old(self)@, k@, v.deep_view()),
            match r {
                Some(o) => lookup(old(self)@, k@) == Some(o.deep_view()),
                None => lookup(old(self)@, k@) is None,
            },
    {
        proof { use_type_invariant(&*self); }
        proof { lemma_insert_unique(self@, k@, v.deep_view()); }
        match self.find(k.as_str()) {
            Some(i) => {
                proof { lemma_lookup_at(self@, i as int); }
                let ghost before = self@;
                let ghost vv = v.deep_view();
                let ghost kv = k@;
                let mut entries: Vec<(String, V)> = Vec::new();
                std::mem::swap(&mut entries, &mut self.entries);
                let old_entry = entries.remove(i);
                entries.insert(i, (k, v));
                assert(entries_view(entries@) =~= before.update(i as int, (kv, vv)));
                self.entries = entries;
                assert(self@ =~= before.update(i as int, (kv, vv)));
                Some(old_entry.1)
            },
            None => {
                let ghost before = self@;
                let ghost vv = v.deep_view();
                let ghost kv = k@;
                let mut entries: Vec<(String, V)> = Vec::new();
                std::mem::swap(&mut entries, &mut self.entries);
                entries.push((k, v));
                assert(entries_view(entries@) =~= before.push((kv, vv)));
                self.entries = entries;
                assert(self@ =~= before.push((kv, vv)));
                None
            },
        }
    }

    /// Removes the entry for `k`, keeping the order of the others.
    pub fn remove(&mut self, k: &str) -> (r: Option<V>)
        ensures
            final(self)@ == remove_spec(old(self)@, k@),
            match r {
                Some(o) => lookup(old(self)@, k@) == Some(o.deep_view()),
                None => lookup(old(self)@, k@) is None,
            },
    {
        proof { use_type_invariant(&*self); }
        proof { lemma_remove_unique(self@, k@); }
        match self.find(k) {
            Some(i) => {
                proof { lemma_lookup_at(self@, i as int); }
                let ghost before = self@;
                let mut entries: Vec<(String, V)> = Vec::new();
                std::mem::swap(&mut entries, &mut self.entries);
                let e = entries.remove(i);
                assert(entries_view(entries@) =~= before.remove(i as int));
                self.entries = entries;
                assert(self@ =~= before.remove(i as int));
                Some(e.1)
            },
            None => None,
        }
    }
}

impl StrMap<String> {
    /// The entries, borrowed, in order.
    pub fn pairs(&self) -> (r: Vec<(&String, &String)>)
        ensures
            r@.len() == self@.len(),
            forall|i: int| 0 <= i < r@.len() ==> (#[trigger] r@[i].0@, r@[i].1@) == self@[i],
    {
        let n = self.entries.len();
        let mut r: Vec<(&String, &String)> = Vec::new();
        let mut i: usize = 0;
        while i < n
            invariant
                n == self@.len(),
                i <= n,
                r@.len() == i,
                forall|j: int| 0 <= j < i ==> (#[trigger] r@[j].0@, r@[j].1@) == self@[j],
            decreases n - i,
        {
            r.push((&self.entries[i].0, &self.entries[i].1));
            i = i + 1;
        }
        r
    }

    /// A copy of the map.
    pub fn copy(&self) -> (r: StrMap<String>)
        ensures
            r@ == self@,
    {
        proof { use_type_invariant(self); }
        let mut entries: Vec<(String, String)> = Vec::new();
        let mut i: usize = 0;
        while i < self.entries.len()
            invariant
                i <= self.entries@.len(),
                entries_view(entries@) == entries_view(self.entries@).take(i as int),
                unique_keys(entries_view(self.entries@)),
            decreases self.entries@.len() - i,
        {
            let k = self.entries[i].0.clone();
            let v = self.entries[i].1.clone();
            assert(k == self.entries@[i as int].0);
            assert(v == self.entries@[i as int].1);
            let ghost before = entries@;
            entries.push((k, v));
            assert(entries@ == before.push(self.entries@[i as int]));
            let ghost x = self.entries@[i as int];
            assert(entries_view(before.push(x)) =~= entries_view(before).push((x.0@, x.1.deep_view())));
            assert(entries_view(self.entries@).take(i + 1) =~= entries_view(self.entries@).take(i as int).push(entries_view(self.entries@)[i as int]));
            assert(entries_view(entries@) =~= entries_view(self.entries@).take(i + 1));
            i = i + 1;
        }
        assert(entries_view(self.entries@).take(i as int) =~= entries_view(self.entries@));
        StrMap { entries }
    }
}

} // verus!
