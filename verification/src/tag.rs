//! Tags (`key=value` labels) and a map from tag keys to their values.

use vstd::prelude::*;
use vstd::string::StringExecFns;
use crate::error::VaultError;
use crate::strmap::{StrMap, has_key, insert_spec, key_index, lookup, remove_spec, unique_keys, lemma_insert_unique, lemma_key_index, lemma_lookup_at};
use crate::text::{chars_of, find_from, find_from_exec, has_char, occurs_at, owned, push_str, str_eq, sub_string, trim, trimmed};

verus! {

/// A tag: a key and a value.
#[derive(Debug, Clone, PartialEq, Eq)]
pub struct Tag {
    pub key: String,
    pub value: String,
}

/// Where the key and value of a `key=value` text are: split at the first `=`,
/// each part trimmed. `None` when there is no `=` or nothing before it.
pub open spec fn tag_parsed(raw: Seq<char>) -> Option<(Seq<char>, Seq<char>)> {
    match find_from(raw, "="@, 0) {
        Some(i) => if i == 0 {
            None
        } else {
            Some((trimmed(raw.take(i)), trimmed(raw.skip(i + 1))))
        },
        None => None,
    }
}

/// The text of a tag: `key=value`.
pub open spec fn tag_text(key: Seq<char>, value: Seq<char>) -> Seq<char> {
    key + "="@ + value
}

/// The message for a text that is not a tag.
pub open spec fn bad_tag_msg(raw: Seq<char>) -> Seq<char> {
    "Invalid tag format '"@ + raw + "': expected key=value"@
}

impl Tag {
    /// A tag with the given key and value.
    pub fn new(key: &str, value: &str) -> (r: Tag)
        ensures
            r.key@ == key@,
            r.value@ == value@,
    {
        Tag { key: owned(key), value: owned(value) }
    }

    /// Parses `key=value`: split at the first `=`, key and value trimmed. Fails
    /// when there is no `=` or it comes first.
    pub fn parse(raw: &str) -> (r: Result<Tag, VaultError>)
        ensures
            tag_parsed(raw@) matches Some(p) ==> (r matches Ok(t) && t.key@ == p.0 && t.value@ == p.1),
            tag_parsed(raw@) is None ==> (r matches Err(e) && e is InvalidInput && e.msg() == bad_tag_msg(raw@)),
    {
        proof { reveal_strlit("="); }
        let cs = chars_of(raw);
        let mut eq: Vec<char> = Vec::new();
        eq.push('=');
        assert(eq@ =~= "="@);
        match find_from_exec(&cs, &eq, 0) {
            Some(i) if i > 0 => {
                proof { crate::text::lemma_find_from_some(raw@, "="@, 0); }
                assert(occurs_at(raw@, "="@, i as int));
                assert(i < cs.len());
                let k = sub_string(&cs, 0, i);
                let v = sub_string(&cs, i + 1, cs.len());
                assert(k@ =~= raw@.take(i as int));
                assert(v@ =~= raw@.skip(i + 1));
                let key = trim(k.as_str());
                let value = trim(v.as_str());
                Ok(Tag { key, value })
            },
            _ => {
                let m = String::from_str("Invalid tag format '").concat(raw).concat("': expected key=value");
                Err(VaultError::InvalidInput(m))
            },
        }
    }

    /// The tag as `key=value`.
    pub fn to_string(&self) -> (r: String)
        ensures
            r@ == tag_text(self.key@, self.value@),
    {
        let mut s = owned(self.key.as_str());
        push_str(&mut s, "=");
        push_str(&mut s, self.value.as_str());
        s
    }
}

proof fn lemma_find_at(s: Seq<char>, p: Seq<char>, i: int, j: int)
    requires
        0 <= i <= j,
        occurs_at(s, p, j),
        forall|m: int| i <= m < j ==> !occurs_at(s, p, m),
    ensures
        find_from(s, p, i) == Some(j),
    decreases j - i,
{
    if i < j {
        lemma_find_at(s, p, i + 1, j);
    }
}

/// Law: a tag whose key is non-empty, holds no `=` and is trimmed, and whose
/// value is trimmed, parses back from its text.
pub proof fn law_tag_text_parses(key: Seq<char>, value: Seq<char>)
    requires
        key.len() > 0,
        !has_char(key, '='),
        trimmed(key) == key,
        trimmed(value) == value,
    ensures
        tag_parsed(tag_text(key, value)) == Some((key, value)),
{
    reveal_strlit("=");
    let s = tag_text(key, value);
    let n = key.len() as int;
    assert(s.subrange(n, n + 1) =~= "="@);
    assert forall|m: int| 0 <= m < n implies !occurs_at(s, "="@, m) by {
        if occurs_at(s, "="@, m) {
            assert(s.subrange(m, m + 1)[0] == s[m]);
            assert(key[m] == '=');
        }
    }
    lemma_find_at(s, "="@, 0, n);
    assert(s.take(n) =~= key);
    assert(s.skip(n + 1) =~= value);
}

/// The tags of a map: for each key, in order of its first tag, the values in order.
pub struct TagMap {
    inner: StrMap<Vec<String>>,
}

impl View for TagMap {
    type V = Seq<(Seq<char>, Seq<Seq<char>>)>;

    closed spec fn view(&self) -> Seq<(Seq<char>, Seq<Seq<char>>)> {
        self.inner@
    }
}

/// The map after adding `value` under `key`.
pub open spec fn tag_insert(m: Seq<(Seq<char>, Seq<Seq<char>>)>, key: Seq<char>, value: Seq<char>) -> Seq<(Seq<char>, Seq<Seq<char>>)> {
    let prev = match lookup(m, key) {
        Some(vs) => vs,
        None => Seq::empty(),
    };
    insert_spec(m, key, prev.push(value))
}

/// Every (key, value) pair, key by key in order, values in order.
pub open spec fn tag_pairs(m: Seq<(Seq<char>, Seq<Seq<char>>)>) -> Seq<(Seq<char>, Seq<char>)>
    decreases m.len(),
{
    if m.len() == 0 {
        Seq::empty()
    } else {
        tag_pairs(m.drop_last()) + m.last().1.map_values(|v: Seq<char>| (m.last().0, v))
    }
}

/// The number of values in the map.
pub open spec fn tag_count(m: Seq<(Seq<char>, Seq<Seq<char>>)>) -> nat
    decreases m.len(),
{
    if m.len() == 0 {
        0
    } else {
        tag_count(m.drop_last()) + m.last().1.len()
    }
}

proof fn lemma_tag_count_prefix(m: Seq<(Seq<char>, Seq<Seq<char>>)>, i: int)
    requires
        0 <= i < m.len(),
    ensures
        tag_count(m.take(i + 1)) <= tag_count(m),
        tag_count(m.take(i + 1)) == tag_count(m.take(i)) + m[i].1.len(),
    decreases m.len() - i,
{
    assert(m.take(i + 1).drop_last() =~= m.take(i));
    if i + 1 < m.len() {
        lemma_tag_count_prefix(m, i + 1);
    } else {
        assert(m.take(i + 1) =~= m);
    }
}

impl TagMap {
    /// An empty map.
    pub fn new() -> (r: TagMap)
        ensures
            r@ == Seq::<(Seq<char>, Seq<Seq<char>>)>::empty(),
    {
        TagMap { inner: StrMap::new() }
    }

    /// Adds the tag's value to the values of its key.
    pub fn insert(&mut self, tag: Tag)
        ensures
            final(self)@ == tag_insert(old(self)@, tag.key@, tag.value@),
    {
        let ghost before = self.inner@;
        proof { use_type_invariant(&self.inner); }
        let ghost vv = tag.value@;
        match self.inner.find(tag.key.as_str()) {
            Some(j) => {
                proof { lemma_lookup_at(before, j as int); }
                let mut vs = self.inner.replace_value(j, Vec::new());
                let ghost old_vs = vs.deep_view();
                vs.push(tag.value);
                assert(vs.deep_view() =~= old_vs.push(vv));
                self.inner.set_value(j, vs);
            },
            None => {
                let mut vs: Vec<String> = Vec::new();
                vs.push(tag.value);
                assert(vs.deep_view() =~= Seq::<Seq<char>>::empty().push(vv));
                self.inner.insert(tag.key, vs);
            },
        }
    }

    /// The values of `key`, if it has any.
    pub fn get(&self, key: &str) -> (r: Option<&Vec<String>>)
        ensures
            match r {
                Some(vs) => lookup(self@, key@) == Some(vs.deep_view()),
                None => lookup(self@, key@) is None,
            },
    {
        self.inner.get(key)
    }

    /// Whether the tag's value is among the values of its key.
    pub fn contains(&self, tag: &Tag) -> (r: bool)
        ensures
            r == (lookup(self@, tag.key@) matches Some(vs) && vs.contains(tag.value@)),
    {
        match self.inner.get(tag.key.as_str()) {
            Some(vs) => {
                let mut i: usize = 0;
                while i < vs.len()
                    invariant
                        lookup(self@, tag.key@) == Some(vs.deep_view()),
                        i <= vs@.len(),
                        forall|j: int| 0 <= j < i ==> vs@[j]@ != tag.value@,
                    decreases vs@.len() - i,
                {
                    if str_eq(vs[i].as_str(), tag.value.as_str()) {
                        assert(vs.deep_view()[i as int] == tag.value@);
                        assert(vs.deep_view().contains(tag.value@));
                        return true;
                    }
                    i = i + 1;
                }
                assert(!vs.deep_view().contains(tag.value@)) by {
                    if vs.deep_view().contains(tag.value@) {
                        let j = choose|j: int| 0 <= j < vs.deep_view().len() && vs.deep_view()[j] == tag.value@;
                        assert(vs@[j]@ == tag.value@);
                    }
                }
                false
            },
            None => false,
        }
    }

    /// Removes every value of `key`; says whether it had any.
    pub fn remove(&mut self, key: &str) -> (r: bool)
        ensures
            r == has_key(old(self)@, key@),
            final(self)@ == remove_spec(old(self)@, key@),
    {
        match self.inner.remove(key) {
            Some(_) => true,
            None => false,
        }
    }

    /// Every tag, key by key, values in order.
    pub fn all_tags(&self) -> (r: Vec<Tag>)
        ensures
            r@.map_values(|t: Tag| (t.key@, t.value@)) == tag_pairs(self@),
    {
        let ghost m = self.inner@;
        let n = self.inner.len();
        let mut out: Vec<Tag> = Vec::new();
        let mut i: usize = 0;
        assert(m.take(0) =~= Seq::<(Seq<char>, Seq<Seq<char>>)>::empty());
        while i < n
            invariant
                m == self.inner@,
                n == m.len(),
                i <= n,
                out@.map_values(|t: Tag| (t.key@, t.value@)) == tag_pairs(m.take(i as int)),
            decreases n - i,
        {
            assert(m.take(i + 1).drop_last() =~= m.take(i as int));
            let key = self.inner.key_at(i);
            let vs = self.inner.value_at(i);
            let ghost base = out@.map_values(|t: Tag| (t.key@, t.value@));
            let ghost kv = m[i as int];
            let mut j: usize = 0;
            while j < vs.len()
                invariant
                    kv == m[i as int],
                    key@ == kv.0,
                    vs.deep_view() == kv.1,
                    j <= vs@.len(),
                    out@.map_values(|t: Tag| (t.key@, t.value@)) == base + kv.1.take(j as int).map_values(
                        |v: Seq<char>| (kv.0, v),
                    ),
                decreases vs@.len() - j,
            {
                let ghost before = out@;
                out.push(Tag { key: owned(key.as_str()), value: owned(vs[j].as_str()) });
                assert(kv.1[j as int] == vs@[j as int]@);
                assert(out@.map_values(|t: Tag| (t.key@, t.value@)) =~= before.map_values(|t: Tag| (t.key@, t.value@)).push(
                    (kv.0, kv.1[j as int]),
                ));
                assert(kv.1.take(j + 1).map_values(|v: Seq<char>| (kv.0, v)) =~= kv.1.take(j as int).map_values(
                    |v: Seq<char>| (kv.0, v),
                ).push((kv.0, kv.1[j as int])));
                j = j + 1;
            }
            assert(kv.1.take(vs@.len() as int) =~= kv.1);
            i = i + 1;
        }
        assert(m.take(n as int) =~= m);
        out
    }

    /// Whether the map has no keys.
    pub fn is_empty(&self) -> (r: bool)
        ensures
            r == (self@.len() == 0),
    {
        self.inner.is_empty()
    }

    /// The number of values, over all keys.
    pub fn len(&self) -> (r: usize)
        requires
            tag_count(self@) <= usize::MAX,
        ensures
            r == tag_count(self@),
    {
        let ghost m = self.inner@;
        let n = self.inner.len();
        let mut total: usize = 0;
        let mut i: usize = 0;
        assert(m.take(0) =~= Seq::<(Seq<char>, Seq<Seq<char>>)>::empty());
        while i < n
            invariant
                m == self.inner@,
                n == m.len(),
                tag_count(m) <= usize::MAX,
                i <= n,
                total == tag_count(m.take(i as int)),
            decreases n - i,
        {
            proof { lemma_tag_count_prefix(m, i as int); }
            total = total + self.inner.value_at(i).len();
            i = i + 1;
        }
        assert(m.take(n as int) =~= m);
        total
    }
}

/// Law: after a tag is inserted the map contains it, and the values of other
/// keys are unchanged.
pub proof fn law_insert_then_contains(m: Seq<(Seq<char>, Seq<Seq<char>>)>, key: Seq<char>, value: Seq<char>, other: Seq<char>)
    requires
        crate::strmap::unique_keys(m),
    ensures
        lookup(tag_insert(m, key, value), key) matches Some(vs) && vs.contains(value),
        other != key ==> lookup(tag_insert(m, key, value), other) == lookup(m, other),
{
    let prev = match lookup(m, key) {
        Some(vs) => vs,
        None => Seq::<Seq<char>>::empty(),
    };
    crate::strmap::lemma_insert_unique(m, key, prev.push(value));
    assert(prev.push(value)[prev.len() as int] == value);
}

/// The map after inserting the tags `ts` (key, value) one by one into an
/// empty map.
pub open spec fn inserted_all(ts: Seq<(Seq<char>, Seq<char>)>) -> Seq<(Seq<char>, Seq<Seq<char>>)>
    decreases ts.len(),
{
    if ts.len() == 0 {
        Seq::empty()
    } else {
        tag_insert(inserted_all(ts.drop_last()), ts.last().0, ts.last().1)
    }
}

/// The pairs of one key's values.
spec fn key_pairs(e: (Seq<char>, Seq<Seq<char>>)) -> Seq<(Seq<char>, Seq<char>)> {
    e.1.map_values(|v: Seq<char>| (e.0, v))
}

proof fn lemma_tag_pairs_add(a: Seq<(Seq<char>, Seq<Seq<char>>)>, b: Seq<(Seq<char>, Seq<Seq<char>>)>)
    ensures
        tag_pairs(a + b) == tag_pairs(a) + tag_pairs(b),
    decreases b.len(),
{
    if b.len() == 0 {
        assert(a + b =~= a);
        assert(tag_pairs(a) + tag_pairs(b) =~= tag_pairs(a));
    } else {
        lemma_tag_pairs_add(a, b.drop_last());
        assert((a + b).drop_last() =~= a + b.drop_last());
        assert((a + b).last() == b.last());
        assert(tag_pairs(a + b) =~= tag_pairs(a) + tag_pairs(b));
    }
}

proof fn lemma_tag_count_pairs(m: Seq<(Seq<char>, Seq<Seq<char>>)>)
    ensures
        tag_count(m) == tag_pairs(m).len(),
    decreases m.len(),
{
    if m.len() > 0 {
        lemma_tag_count_pairs(m.drop_last());
    }
}

proof fn lemma_tag_pairs_single(e: (Seq<char>, Seq<Seq<char>>))
    ensures
        tag_pairs(seq![e]) == key_pairs(e),
{
    let m = seq![e];
    assert(m.drop_last() =~= Seq::<(Seq<char>, Seq<Seq<char>>)>::empty());
    assert(tag_pairs(m.drop_last()) =~= Seq::<(Seq<char>, Seq<char>)>::empty());
    assert(m.last() == e);
    assert(tag_pairs(m) == tag_pairs(m.drop_last()) + m.last().1.map_values(|v: Seq<char>| (m.last().0, v)));
    assert(tag_pairs(m) =~= key_pairs(e));
}

/// Inserting a tag adds exactly its pair to the map's pairs (as a multiset).
proof fn lemma_insert_adds_pair(m: Seq<(Seq<char>, Seq<Seq<char>>)>, key: Seq<char>, value: Seq<char>)
    requires
        unique_keys(m),
    ensures
        tag_pairs(tag_insert(m, key, value)).to_multiset() == tag_pairs(m).to_multiset().insert((key, value)),
{
    broadcast use vstd::seq_lib::group_to_multiset_ensures;
    broadcast use vstd::seq_lib::lemma_multiset_commutative;
    broadcast use vstd::multiset::group_multiset_axioms;

    let t = tag_insert(m, key, value);
    if has_key(m, key) {
        lemma_key_index(m, key);
        let j = key_index(m, key);
        let vs = m[j].1;
        let a = m.take(j);
        let b = m.skip(j + 1);
        let e1 = (key, vs.push(value));
        assert(m =~= a + seq![m[j]] + b);
        assert(t =~= a + seq![e1] + b);
        lemma_tag_pairs_add(a + seq![m[j]], b);
        lemma_tag_pairs_add(a, seq![m[j]]);
        lemma_tag_pairs_add(a + seq![e1], b);
        lemma_tag_pairs_add(a, seq![e1]);
        lemma_tag_pairs_single(m[j]);
        lemma_tag_pairs_single(e1);
        assert(key_pairs(e1) =~= key_pairs(m[j]).push((key, value)));
        let pa = tag_pairs(a);
        let pb = tag_pairs(b);
        let p0 = key_pairs(m[j]);
        assert(tag_pairs(m) == pa + p0 + pb);
        assert(tag_pairs(t) == pa + p0.push((key, value)) + pb);
        assert((pa + p0 + pb).to_multiset() =~= pa.to_multiset().add(p0.to_multiset()).add(pb.to_multiset()));
        assert((pa + p0.push((key, value)) + pb).to_multiset() =~= pa.to_multiset().add(
            p0.to_multiset().insert((key, value)),
        ).add(pb.to_multiset()));
        assert(tag_pairs(t).to_multiset() =~= tag_pairs(m).to_multiset().insert((key, value)));
    } else {
        let e1 = (key, Seq::<Seq<char>>::empty().push(value));
        assert(t == m.push(e1));
        assert(t.drop_last() =~= m);
        assert(key_pairs(e1) =~= seq![(key, value)]);
        assert(tag_pairs(t) == tag_pairs(m) + key_pairs(e1));
        assert(tag_pairs(t) =~= tag_pairs(m).push((key, value)));
    }
}

/// Law: inserting the tags `ts` one by one into an empty map gives back
/// exactly those tags (repeated ones kept, as a multiset): the map holds as
/// many values as there were tags, and it contains each of them.
pub proof fn law_inserts_give_back_tags(ts: Seq<(Seq<char>, Seq<char>)>)
    ensures
        unique_keys(inserted_all(ts)),
        tag_pairs(inserted_all(ts)).to_multiset() == ts.to_multiset(),
        tag_count(inserted_all(ts)) == ts.len(),
        forall|i: int| 0 <= i < ts.len() ==> (lookup(inserted_all(ts), #[trigger] ts[i].0) matches Some(vs)
            && vs.contains(ts[i].1)),
    decreases ts.len(),
{
    broadcast use vstd::seq_lib::group_to_multiset_ensures;

    if ts.len() == 0 {
        assert(tag_pairs(Seq::<(Seq<char>, Seq<Seq<char>>)>::empty()) =~= Seq::<(Seq<char>, Seq<char>)>::empty());
        assert(ts.to_multiset() =~= vstd::multiset::Multiset::empty());
        assert(tag_pairs(inserted_all(ts)).to_multiset() =~= vstd::multiset::Multiset::empty());
    } else {
        let front = ts.drop_last();
        let (k, v) = ts.last();
        law_inserts_give_back_tags(front);
        let m = inserted_all(front);
        let prev = match lookup(m, k) {
            Some(vs) => vs,
            None => Seq::<Seq<char>>::empty(),
        };
        lemma_insert_unique(m, k, prev.push(v));
        lemma_insert_adds_pair(m, k, v);
        assert(ts =~= front.push((k, v)));
        lemma_tag_count_pairs(inserted_all(ts));
        lemma_tag_count_pairs(m);
        assert forall|i: int| 0 <= i < ts.len() implies (lookup(inserted_all(ts), #[trigger] ts[i].0) matches Some(vs)
            && vs.contains(ts[i].1)) by {
            if i == ts.len() - 1 {
                assert(prev.push(v)[prev.len() as int] == v);
            } else {
                assert(ts[i] == front[i]);
                if front[i].0 == k {
                    let vs0 = lookup(m, k)->0;
                    let w = choose|w: int| 0 <= w < vs0.len() && vs0[w] == front[i].1;
                    assert(prev.push(v)[w] == front[i].1);
                }
            }
        }
    }
    lemma_tag_count_pairs(inserted_all(ts));
    assert(tag_pairs(inserted_all(ts)).to_multiset().len() == tag_pairs(inserted_all(ts)).len());
    assert(ts.to_multiset().len() == ts.len());
}

} // verus!
