//! Searching the secrets of a bundle by a term.

use vstd::prelude::*;
use vstd::string::StringExecFns;
use crate::bundle::Bundle;
use crate::error::VaultError;
use crate::strmap::keys_of;
use crate::text::{contains, has_substr, lowercase, owned, sorted_order, to_lowercase};

verus! {

/// A search: the term, whether case matters, and whether to search keys only.
pub struct SearchQuery {
    pub term: String,
    pub case_sensitive: bool,
    pub keys_only: bool,
}

impl SearchQuery {
    /// A case-insensitive search of keys and values for `term`.
    pub fn new(term: &str) -> (r: SearchQuery)
        ensures
            r.term@ == term@,
            !r.case_sensitive,
            !r.keys_only,
    {
        SearchQuery { term: owned(term), case_sensitive: false, keys_only: false }
    }

    /// The query with case sensitivity set to `val`.
    pub fn case_sensitive(self, val: bool) -> (r: SearchQuery)
        ensures
            r.term == self.term,
            r.case_sensitive == val,
            r.keys_only == self.keys_only,
    {
        SearchQuery { case_sensitive: val, ..self }
    }

    /// The query with keys-only set to `val`.
    pub fn keys_only(self, val: bool) -> (r: SearchQuery)
        ensures
            r.term == self.term,
            r.case_sensitive == self.case_sensitive,
            r.keys_only == val,
    {
        SearchQuery { keys_only: val, ..self }
    }
}

/// A secret that matched.
pub struct SearchResult {
    pub key: String,
    pub value: Option<String>,
    pub matched_in_key: bool,
    pub matched_in_value: bool,
}

impl SearchResult {
    /// Where the term matched, in words.
    pub fn match_location(&self) -> (r: &'static str)
        ensures
            r@ == if self.matched_in_key && self.matched_in_value {
                "key and value"@
            } else if self.matched_in_key {
                "key"@
            } else if self.matched_in_value {
                "value"@
            } else {
                "nowhere"@
            },
    {
        match (self.matched_in_key, self.matched_in_value) {
            (true, true) => "key and value",
            (true, false) => "key",
            (false, true) => "value",
            (false, false) => "nowhere",
        }
    }
}

/// `s` as compared by the query (lowercased unless case-sensitive).
pub open spec fn folded(q: SearchQuery, s: Seq<char>) -> Seq<char> {
    if q.case_sensitive { s } else { lowercase(s) }
}

/// The term occurs in the key.
pub open spec fn key_hit(q: SearchQuery, k: Seq<char>) -> bool {
    has_substr(folded(q, k), folded(q, q.term@))
}

/// The term occurs in the value (never when searching keys only).
pub open spec fn value_hit(q: SearchQuery, v: Seq<char>) -> bool {
    !q.keys_only && has_substr(folded(q, v), folded(q, q.term@))
}

/// `res` reports the entry `(k, v)` for the query.
pub open spec fn reports(res: SearchResult, q: SearchQuery, k: Seq<char>, v: Seq<char>) -> bool {
    &&& res.key@ == k
    &&& res.matched_in_key == key_hit(q, k)
    &&& res.matched_in_value == value_hit(q, v)
    &&& match res.value {
        Some(x) => !q.keys_only && x@ == v,
        None => q.keys_only,
    }
}

/// The matching entries among `order` (positions into `s`), in that order.
pub open spec fn hits(s: Seq<(Seq<char>, Seq<char>)>, order: Seq<usize>, q: SearchQuery) -> Seq<usize>
    decreases order.len(),
{
    if order.len() == 0 {
        Seq::empty()
    } else {
        let rest = hits(s, order.drop_last(), q);
        let e = s[order.last() as int];
        if key_hit(q, e.0) || value_hit(q, e.1) {
            rest.push(order.last())
        } else {
            rest
        }
    }
}

fn fold(q: &SearchQuery, s: &str) -> (r: String)
    ensures
        r@ == folded(*q, s@),
{
    if q.case_sensitive { owned(s) } else { to_lowercase(s) }
}

/// The secrets whose key (or, unless `keys_only`, value) contains the term,
/// ignoring case unless the query is case-sensitive; sorted by key. Never fails.
pub fn search_bundle(bundle: &Bundle, query: &SearchQuery) -> (r: Result<Vec<SearchResult>, VaultError>)
    ensures
        r matches Ok(rs) && exists|order: Seq<usize>| #![auto] sorted_order(keys_of(bundle.secrets@), order)
            && rs@.len() == hits(bundle.secrets@, order, *query).len()
            && forall|i: int| 0 <= i < rs@.len() ==> reports(#[trigger] rs@[i], *query,
                bundle.secrets@[hits(bundle.secrets@, order, *query)[i] as int].0,
                bundle.secrets@[hits(bundle.secrets@, order, *query)[i] as int].1),
{
    let ghost s = bundle.secrets@;
    let order = bundle.secrets.sorted_indices();
    let term = fold(query, query.term.as_str());
    let mut results: Vec<SearchResult> = Vec::new();
    let mut j: usize = 0;
    assert(order@.take(0) =~= Seq::<usize>::empty());
    while j < order.len()
        invariant
            s == bundle.secrets@,
            sorted_order(keys_of(s), order@),
            term@ == folded(*query, query.term@),
            j <= order@.len(),
            results@.len() == hits(s, order@.take(j as int), *query).len(),
            forall|i: int| 0 <= i < results@.len() ==> reports(#[trigger] results@[i], *query,
                s[hits(s, order@.take(j as int), *query)[i] as int].0,
                s[hits(s, order@.take(j as int), *query)[i] as int].1),
        decreases order@.len() - j,
    {
        let p = order[j];
        assert((p as int) < keys_of(s).len());
        assert(order@.take(j + 1).drop_last() =~= order@.take(j as int));
        assert(order@.take(j + 1).last() == p);
        let key = bundle.secrets.key_at(p);
        let value = bundle.secrets.value_at(p);
        let k_folded = fold(query, key.as_str());
        let v_folded = fold(query, value.as_str());
        let matched_in_key = contains(k_folded.as_str(), term.as_str());
        let matched_in_value = !query.keys_only && contains(v_folded.as_str(), term.as_str());
        if matched_in_key || matched_in_value {
            let res = SearchResult {
                key: key.clone(),
                value: if query.keys_only { None } else { Some(value.clone()) },
                matched_in_key,
                matched_in_value,
            };
            let ghost before = results@;
            results.push(res);
            proof {
                let h = hits(s, order@.take(j as int), *query);
                assert(hits(s, order@.take(j + 1), *query) == h.push(p));
                assert forall|i: int| 0 <= i < results@.len() implies reports(#[trigger] results@[i], *query,
                    s[h.push(p)[i] as int].0, s[h.push(p)[i] as int].1) by {
                    if i < before.len() {
                        assert(results@[i] == before[i]);
                        assert(h.push(p)[i] == h[i]);
                    }
                }
            }
        }
        j = j + 1;
    }
    assert(order@.take(order@.len() as int) =~= order@);
    Ok(results)
}

} // verus!
