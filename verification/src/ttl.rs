//! Time-to-live entries: the time at which a secret's key expires.

use vstd::prelude::*;
use vstd::string::StringExecFns;
use crate::clock::unix_seconds;
use crate::error::VaultError;
use crate::text::{owned, str_eq};

verus! {

/// A key and the time (seconds since the Unix epoch) at which it expires.
#[derive(Debug, Clone, PartialEq, Eq)]
pub struct TtlEntry {
    pub key: String,
    pub expires_at: u64,
}

/// The entry has expired at time `now`.
pub open spec fn expired(e: TtlEntry, now: u64) -> bool {
    now >= e.expires_at
}

/// The seconds left at `now` before `expires_at`, none once it has passed.
pub open spec fn remaining(expires_at: u64, now: u64) -> u64 {
    if expires_at > now {
        (expires_at - now) as u64
    } else {
        0
    }
}

/// The entries whose key is not `k`, in order.
pub open spec fn other_keys(s: Seq<TtlEntry>, k: Seq<char>) -> Seq<TtlEntry> {
    s.filter(|e: TtlEntry| e.key@ != k)
}

/// The entries not expired at `now`, in order.
pub open spec fn live_at(s: Seq<TtlEntry>, now: u64) -> Seq<TtlEntry> {
    s.filter(|e: TtlEntry| !expired(e, now))
}

/// The keys of the entries expired at `now`, in order.
pub open spec fn expired_keys_of(s: Seq<TtlEntry>, now: u64) -> Seq<Seq<char>> {
    s.filter(|e: TtlEntry| expired(e, now)).map_values(|e: TtlEntry| e.key@)
}

/// The position of the first entry for key `k`, if any.
pub open spec fn first_for(s: Seq<TtlEntry>, k: Seq<char>) -> Option<int> {
    if exists|i: int| 0 <= i < s.len() && s[i].key@ == k {
        Some(choose|i: int| 0 <= i < s.len() && s[i].key@ == k && forall|j: int| 0 <= j < i ==> s[j].key@ != k)
    } else {
        None
    }
}

/// `r` and `after` are what `TtlStore::set_with_clock` gives for `before`,
/// `key`, `seconds` and the clock reading `clock`.
pub open spec fn set_outcome_holds(before: Seq<TtlEntry>, after: Seq<TtlEntry>, key: Seq<char>, seconds: u64, clock: Result<u64, String>, r: Result<(), VaultError>) -> bool {
    match clock {
        Err(m) => r matches Err(e) && e is Generic && e.msg() == m@ && after == before,
        Ok(now) => if now + seconds > u64::MAX {
            r matches Err(e) && e is Generic && e.msg() == "TTL expiry time does not fit in a u64"@ && after == before
        } else {
            r is Ok && after.len() > 0 && after.drop_last() == other_keys(before, key) && after.last().key@ == key
                && after.last().expires_at == now + seconds
        },
    }
}

/// The current time, or 0 when the clock cannot be read.
fn now_or_zero() -> (r: u64) {
    match unix_seconds() {
        Ok(t) => t,
        Err(_) => 0,
    }
}

impl TtlEntry {
    /// An entry for `key` expiring `seconds` after `now`.
    pub fn at(key: &str, seconds: u64, now: u64) -> (r: TtlEntry)
        requires
            now + seconds <= u64::MAX,
        ensures
            r.key@ == key@,
            r.expires_at == now + seconds,
    {
        TtlEntry { key: owned(key), expires_at: now + seconds }
    }

    /// An entry for `key` expiring `seconds` from now. Fails when the clock
    /// cannot be read or the expiry time does not fit in a `u64`.
    pub fn new(key: &str, seconds: u64) -> (r: Result<TtlEntry, VaultError>)
        ensures
            r matches Ok(e) ==> e.key@ == key@ && e.expires_at >= seconds,
            r matches Err(e) ==> e is Generic,
    {
        match unix_seconds() {
            Ok(now) => {
                if now > u64::MAX - seconds {
                    Err(VaultError::Generic(String::from_str("TTL expiry time does not fit in a u64")))
                } else {
                    Ok(TtlEntry::at(key, seconds, now))
                }
            },
            Err(e) => Err(VaultError::Generic(e)),
        }
    }

    /// Whether the entry has expired at time `now`.
    pub fn is_expired_at(&self, now: u64) -> (r: bool)
        ensures
            r == expired(*self, now),
    {
        now >= self.expires_at
    }

    /// Whether the entry has expired (the time counts as 0 when the clock cannot be read).
    pub fn is_expired(&self) -> (r: bool)
        ensures
            exists|now: u64| r == expired(*self, now),
    {
        self.is_expired_at(now_or_zero())
    }

    /// Seconds left at time `now` before expiry; 0 once expired.
    pub fn seconds_remaining_at(&self, now: u64) -> (r: u64)
        ensures
            r == remaining(self.expires_at, now),
    {
        self.expires_at.saturating_sub(now)
    }

    /// Seconds left before expiry; 0 once expired.
    pub fn seconds_remaining(&self) -> (r: u64)
        ensures
            exists|now: u64| r == remaining(self.expires_at, now),
    {
        self.seconds_remaining_at(now_or_zero())
    }
}

/// The entries, in order; a key has at most one.
pub struct TtlStore {
    pub entries: Vec<TtlEntry>,
}

/// Moves `entries` out, keeping in order those live at `now` (`by_time`) or
/// those whose key is not `key` (`!by_time`), and returns the kept ones with
/// the keys of the dropped ones.
fn split_entries(entries: Vec<TtlEntry>, by_time: bool, key: &str, now: u64) -> (r: (Vec<TtlEntry>, Vec<String>))
    ensures
        by_time ==> r.0@ == live_at(entries@, now),
        by_time ==> r.1@.map_values(|s: String| s@) == expired_keys_of(entries@, now),
        !by_time ==> r.0@ == other_keys(entries@, key@),
        !by_time ==> (r.1@.len() > 0 <==> exists|i: int| 0 <= i < entries@.len() && (#[trigger] entries@[i]).key@ == key@),
{
    let ghost orig = entries@;
    let ghost keep = if by_time {
        |e: TtlEntry| !expired(e, now)
    } else {
        |e: TtlEntry| e.key@ != key@
    };
    let ghost drop = |e: TtlEntry| !keep(e);
    let mut rest = entries;
    let mut kept: Vec<TtlEntry> = Vec::new();
    let mut dropped: Vec<String> = Vec::new();
    let mut i: usize = 0;
    let n = rest.len();
    assert(orig.take(0) =~= Seq::<TtlEntry>::empty());
    proof { reveal(Seq::filter); }
    while rest.len() > 0
        invariant
            n == orig.len(),
            i + rest@.len() == n,
            rest@ == orig.skip(i as int),
            keep == (if by_time { |e: TtlEntry| !expired(e, now) } else { |e: TtlEntry| e.key@ != key@ }),
            drop == (|e: TtlEntry| !keep(e)),
            kept@ == orig.take(i as int).filter(keep),
            dropped@.map_values(|s: String| s@) == orig.take(i as int).filter(drop).map_values(|e: TtlEntry| e.key@),
        decreases rest@.len(),
    {
        let x = rest.remove(0);
        assert(x == orig[i as int]);
        assert(orig.take(i + 1).drop_last() =~= orig.take(i as int));
        proof { reveal(Seq::filter); }
        let ghost before = dropped@;
        let stays = if by_time { now < x.expires_at } else { !str_eq(x.key.as_str(), key) };
        if stays {
            kept.push(x);
        } else {
            dropped.push(owned(x.key.as_str()));
            assert(dropped@.map_values(|s: String| s@) =~= before.map_values(|s: String| s@).push(x.key@));
            assert(orig.take(i + 1).filter(drop) == orig.take(i as int).filter(drop).push(x));
            assert(orig.take(i + 1).filter(drop).map_values(|e: TtlEntry| e.key@) =~= orig.take(i as int).filter(
                drop,
            ).map_values(|e: TtlEntry| e.key@).push(x.key@));
        }
        assert(rest@ =~= orig.skip(i + 1));
        i = i + 1;
    }
    assert(orig.take(n as int) =~= orig);
    proof {
        if by_time {
            assert(keep =~= (|e: TtlEntry| !expired(e, now)));
            assert(drop =~= (|e: TtlEntry| expired(e, now)));
        } else {
            assert(keep =~= (|e: TtlEntry| e.key@ != key@));
            let d = orig.filter(drop);
            broadcast use vstd::seq_lib::group_filter_ensures;
            if d.len() > 0 {
                assert(drop(d[0]));
                assert(orig.contains(d[0])) by {
                    lemma_filter_member(orig, drop, 0);
                }
            }
            if exists|j: int| 0 <= j < orig.len() && (#[trigger] orig[j]).key@ == key@ {
                let j = choose|j: int| 0 <= j < orig.len() && (#[trigger] orig[j]).key@ == key@;
                assert(drop(orig[j]));
                assert(d.contains(orig[j]));
            }
        }
    }
    (kept, dropped)
}

proof fn lemma_filter_member(s: Seq<TtlEntry>, p: spec_fn(TtlEntry) -> bool, i: int)
    requires
        0 <= i < s.filter(p).len(),
    ensures
        s.contains(s.filter(p)[i]),
    decreases s.len(),
{
    reveal(Seq::filter);
    if s.len() > 0 {
        let t = s.drop_last().filter(p);
        if i < t.len() {
            lemma_filter_member(s.drop_last(), p, i);
            let j = choose|j: int| 0 <= j < s.drop_last().len() && s.drop_last()[j] == t[i];
            assert(s[j] == t[i]);
        } else {
            assert(s[s.len() - 1] == s.filter(p)[i]);
        }
    }
}

impl TtlStore {
    /// A store with no entries.
    pub fn new() -> (r: TtlStore)
        ensures
            r.entries@.len() == 0,
    {
        TtlStore { entries: Vec::new() }
    }

    /// Sets `key` to expire `seconds` after `now`, replacing its earlier entry;
    /// the new entry goes last.
    pub fn set_at(&mut self, key: &str, seconds: u64, now: u64)
        requires
            now + seconds <= u64::MAX,
        ensures
            final(self).entries@ == other_keys(old(self).entries@, key@).push(
                TtlEntry { key: final(self).entries@.last().key, expires_at: (now + seconds) as u64 },
            ),
            final(self).entries@.last().key@ == key@,
    {
        let entry = TtlEntry::at(key, seconds, now);
        let mut entries: Vec<TtlEntry> = Vec::new();
        std::mem::swap(&mut entries, &mut self.entries);
        let (mut kept, _) = split_entries(entries, false, key, now);
        kept.push(entry);
        self.entries = kept;
    }

    /// Sets `key` to expire `seconds` after the time `clock` read: the seconds
    /// since the Unix epoch, or the message of the clock's error. Fails,
    /// changing nothing, with that message when the clock failed, or when the
    /// expiry time does not fit in a `u64`.
    pub fn set_with_clock(&mut self, key: &str, seconds: u64, clock: Result<u64, String>) -> (r: Result<(), VaultError>)
        ensures
            match clock {
                Err(m) => r matches Err(e) && e is Generic && e.msg() == m@
                    && final(self).entries@ == old(self).entries@,
                Ok(now) => if now + seconds > u64::MAX {
                    r matches Err(e) && e is Generic && e.msg() == "TTL expiry time does not fit in a u64"@
                        && final(self).entries@ == old(self).entries@
                } else {
                    r is Ok && final(self).entries@.len() > 0
                        && final(self).entries@.drop_last() == other_keys(old(self).entries@, key@)
                        && final(self).entries@.last().key@ == key@
                        && final(self).entries@.last().expires_at == now + seconds
                },
            },
    {
        match clock {
            Ok(now) => {
                if now > u64::MAX - seconds {
                    Err(VaultError::Generic(String::from_str("TTL expiry time does not fit in a u64")))
                } else {
                    self.set_at(key, seconds, now);
                    proof {
                        assert(self.entries@.drop_last() =~= other_keys(old(self).entries@, key@));
                    }
                    Ok(())
                }
            },
            Err(e) => Err(VaultError::Generic(e)),
        }
    }

    /// Sets `key` to expire `seconds` from now (see `set_with_clock`). Fails,
    /// changing nothing, when the clock cannot be read or the expiry time does
    /// not fit in a `u64`.
    pub fn set(&mut self, key: &str, seconds: u64) -> (r: Result<(), VaultError>)
        ensures
            r matches Err(e) ==> e is Generic && final(self).entries@ == old(self).entries@,
            exists|clock: Result<u64, String>| #[trigger] set_outcome_holds(old(self).entries@, final(self).entries@,
                key@, seconds, clock, r),
    {
        let clock = unix_seconds();
        let r = self.set_with_clock(key, seconds, clock);
        assert(set_outcome_holds(old(self).entries@, self.entries@, key@, seconds, clock, r));
        r
    }

    /// Removes the entry of `key`; says whether there was one.
    pub fn remove(&mut self, key: &str) -> (r: bool)
        ensures
            final(self).entries@ == other_keys(old(self).entries@, key@),
            r == exists|i: int| 0 <= i < old(self).entries@.len() && (#[trigger] old(self).entries@[i]).key@ == key@,
    {
        let mut entries: Vec<TtlEntry> = Vec::new();
        std::mem::swap(&mut entries, &mut self.entries);
        let (kept, dropped) = split_entries(entries, false, key, 0);
        self.entries = kept;
        dropped.len() > 0
    }

    /// The keys of the entries expired at `now`, in order.
    pub fn expired_keys_at(&self, now: u64) -> (r: Vec<String>)
        ensures
            r@.map_values(|s: String| s@) == expired_keys_of(self.entries@, now),
    {
        let ghost orig = self.entries@;
        let ghost drop = |e: TtlEntry| expired(e, now);
        let mut out: Vec<String> = Vec::new();
        let mut i: usize = 0;
        assert(orig.take(0) =~= Seq::<TtlEntry>::empty());
        proof { reveal(Seq::filter); }
        while i < self.entries.len()
            invariant
                orig == self.entries@,
                i <= orig.len(),
                drop == (|e: TtlEntry| expired(e, now)),
                out@.map_values(|s: String| s@) == orig.take(i as int).filter(drop).map_values(|e: TtlEntry| e.key@),
            decreases orig.len() - i,
        {
            assert(orig.take(i + 1).drop_last() =~= orig.take(i as int));
            proof { reveal(Seq::filter); }
            let e = &self.entries[i];
            if now >= e.expires_at {
                let ghost before = out@;
                out.push(owned(e.key.as_str()));
                assert(out@.map_values(|s: String| s@) =~= before.map_values(|s: String| s@).push(e.key@));
                assert(orig.take(i + 1).filter(drop).map_values(|e: TtlEntry| e.key@) =~= orig.take(i as int).filter(
                    drop,
                ).map_values(|e: TtlEntry| e.key@).push(e.key@));
            }
            i = i + 1;
        }
        assert(orig.take(orig.len() as int) =~= orig);
        out
    }

    /// The keys of the expired entries, in order (the time counts as 0 when
    /// the clock cannot be read).
    pub fn expired_keys(&self) -> (r: Vec<String>)
        ensures
            exists|now: u64| r@.map_values(|s: String| s@) == expired_keys_of(self.entries@, now),
    {
        let now = now_or_zero();
        self.expired_keys_at(now)
    }

    /// Drops the entries expired at `now` and returns their keys, in order.
    pub fn purge_expired_at(&mut self, now: u64) -> (r: Vec<String>)
        ensures
            final(self).entries@ == live_at(old(self).entries@, now),
            r@.map_values(|s: String| s@) == expired_keys_of(old(self).entries@, now),
    {
        let mut entries: Vec<TtlEntry> = Vec::new();
        std::mem::swap(&mut entries, &mut self.entries);
        let (kept, dropped) = split_entries(entries, true, "", now);
        self.entries = kept;
        dropped
    }

    /// Drops the expired entries and returns their keys, in order.
    pub fn purge_expired(&mut self) -> (r: Vec<String>)
        ensures
            exists|now: u64| final(self).entries@ == live_at(old(self).entries@, now)
                && r@.map_values(|s: String| s@) == expired_keys_of(old(self).entries@, now),
    {
        let now = now_or_zero();
        self.purge_expired_at(now)
    }

    /// The entry of `key`, if any.
    pub fn get(&self, key: &str) -> (r: Option<&TtlEntry>)
        ensures
            match r {
                Some(e) => first_for(self.entries@, key@) matches Some(i) && self.entries@[i] == *e,
                None => first_for(self.entries@, key@) is None,
            },
    {
        let mut i: usize = 0;
        while i < self.entries.len()
            invariant
                i <= self.entries@.len(),
                forall|j: int| 0 <= j < i ==> self.entries@[j].key@ != key@,
            decreases self.entries@.len() - i,
        {
            if str_eq(self.entries[i].key.as_str(), key) {
                let ghost s = self.entries@;
                let ghost c = choose|c: int| 0 <= c < s.len() && s[c].key@ == key@ && forall|j: int| 0 <= j < c ==> s[j].key@ != key@;
                assert(0 <= i < s.len() && s[i as int].key@ == key@ && forall|j: int| 0 <= j < i ==> s[j].key@ != key@);
                assert(c == i as int) by {
                    if c < i {
                    } else if c > i {
                        assert(s[i as int].key@ != key@);
                    }
                }
                return Some(&self.entries[i]);
            }
            i = i + 1;
        }
        None
    }
}

/// Law: after `key` is set, looking it up gives the new entry.
pub proof fn law_set_then_get(s: Seq<TtlEntry>, e: TtlEntry)
    ensures
        first_for(other_keys(s, e.key@).push(e), e.key@) == Some(other_keys(s, e.key@).len() as int),
{
    let t = other_keys(s, e.key@);
    let u = t.push(e);
    let n = t.len() as int;
    assert forall|j: int| 0 <= j < n implies u[j].key@ != e.key@ by {
        broadcast use vstd::seq_lib::group_filter_ensures;
        assert(u[j] == t[j]);
    }
    assert(0 <= n < u.len() && u[n].key@ == e.key@);
    let c = choose|c: int| 0 <= c < u.len() && u[c].key@ == e.key@ && forall|j: int| 0 <= j < c ==> u[j].key@ != e.key@;
    assert(c == n) by {
        if c < n {
        } else if c > n {
            assert(u[n].key@ == e.key@);
        }
    }
}

/// Law: after a purge at `now`, no remaining entry has expired at `now`.
pub proof fn law_purge_leaves_live(s: Seq<TtlEntry>, now: u64)
    ensures
        forall|i: int| 0 <= i < live_at(s, now).len() ==> !expired(#[trigger] live_at(s, now)[i], now),
{
    broadcast use vstd::seq_lib::group_filter_ensures;
}

} // verus!
