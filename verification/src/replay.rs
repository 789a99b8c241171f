//! Replay protection: a nonce is accepted once within a time window.

use vstd::prelude::*;
use vstd::string::StringExecFns;
use crate::clock::unix_seconds;
use crate::error::VaultError;
use crate::text::{owned, str_eq};

verus! {

/// A nonce and the time it was registered (seconds since the Unix epoch).
#[derive(Debug, Clone)]
pub struct NonceEntry {
    pub nonce: String,
    pub created_at: u64,
}

/// The registered nonces, in order, and the window (seconds) for which they are kept.
pub struct ReplayGuard {
    window_secs: u64,
    entries: Vec<NonceEntry>,
}

/// The oldest registration time kept at `now`.
pub open spec fn cutoff(now: u64, window: u64) -> u64 {
    if now > window {
        (now - window) as u64
    } else {
        0
    }
}

/// The registrations kept at `now`: those no older than the cutoff.
pub open spec fn kept_at(s: Seq<(Seq<char>, u64)>, now: u64, window: u64) -> Seq<(Seq<char>, u64)> {
    s.filter(|e: (Seq<char>, u64)| e.1 >= cutoff(now, window))
}

/// `nonce` is registered in `s`.
pub open spec fn has_nonce(s: Seq<(Seq<char>, u64)>, nonce: Seq<char>) -> bool {
    exists|i: int| 0 <= i < s.len() && s[i].0 == nonce
}

/// No nonce is registered twice.
pub open spec fn distinct_nonces(s: Seq<(Seq<char>, u64)>) -> bool {
    forall|i: int, j: int| 0 <= i < j < s.len() ==> s[i].0 != s[j].0
}

/// The message for a nonce seen again.
pub open spec fn replay_msg(nonce: Seq<char>) -> Seq<char> {
    "Replay detected: nonce '"@ + nonce + "' has already been used"@
}

spec fn entries_view(e: Seq<NonceEntry>) -> Seq<(Seq<char>, u64)> {
    e.map_values(|x: NonceEntry| (x.nonce@, x.created_at))
}

impl View for ReplayGuard {
    type V = Seq<(Seq<char>, u64)>;

    closed spec fn view(&self) -> Seq<(Seq<char>, u64)> {
        entries_view(self.entries@)
    }
}

proof fn lemma_filter_distinct(s: Seq<(Seq<char>, u64)>, p: spec_fn((Seq<char>, u64)) -> bool)
    requires
        distinct_nonces(s),
    ensures
        distinct_nonces(s.filter(p)),
        forall|n: Seq<char>| has_nonce(s.filter(p), n) ==> has_nonce(s, n),
        forall|i: int| 0 <= i < s.len() && p(s[i]) ==> #[trigger] has_nonce(s.filter(p), s[i].0),
    decreases s.len(),
{
    reveal(Seq::filter);
    if s.len() > 0 {
        let sp = s.drop_last();
        lemma_filter_distinct(sp, p);
        let t = sp.filter(p);
        assert(s.filter(p) == if p(s.last()) { t.push(s.last()) } else { t });
        assert forall|n: Seq<char>| has_nonce(s.filter(p), n) implies has_nonce(s, n) by {
            let i = choose|i: int| 0 <= i < s.filter(p).len() && s.filter(p)[i].0 == n;
            if i < t.len() {
                assert(s.filter(p)[i] == t[i]);
                assert(has_nonce(t, n));
                assert(has_nonce(sp, n));
                let j = choose|j: int| 0 <= j < sp.len() && sp[j].0 == n;
                assert(s[j] == sp[j]);
            } else {
                assert(s[s.len() - 1].0 == n);
            }
        }
        assert forall|i: int| 0 <= i < s.len() && p(s[i]) implies #[trigger] has_nonce(s.filter(p), s[i].0) by {
            if i < sp.len() {
                assert(sp[i] == s[i]);
                assert(has_nonce(t, sp[i].0));
                let j = choose|j: int| 0 <= j < t.len() && t[j].0 == sp[i].0;
                assert(s.filter(p)[j] == t[j]);
            } else {
                assert(s.filter(p)[t.len() as int] == s[i]);
            }
        }
        if p(s.last()) {
            let f = s.filter(p);
            assert forall|a: int, b: int| 0 <= a < b < f.len() implies f[a].0 != f[b].0 by {
                if b == t.len() {
                    assert(f[a] == t[a]);
                    if t[a].0 == s.last().0 {
                        assert(has_nonce(t, s.last().0));
                        assert(has_nonce(sp, s.last().0));
                        let j = choose|j: int| 0 <= j < sp.len() && sp[j].0 == s.last().0;
                        assert(s[j].0 == s[s.len() - 1].0);
                    }
                } else {
                    assert(f[a] == t[a] && f[b] == t[b]);
                }
            }
        }
    }
}

impl ReplayGuard {
    #[verifier::type_invariant]
    spec fn wf(self) -> bool {
        distinct_nonces(entries_view(self.entries@))
    }

    /// The replay window in seconds.
    pub closed spec fn window(self) -> u64 {
        self.window_secs
    }

    /// A guard with no nonces and a window of `window_secs` seconds.
    pub fn new(window_secs: u64) -> (r: ReplayGuard)
        ensures
            r@ == Seq::<(Seq<char>, u64)>::empty(),
            r.window() == window_secs,
    {
        let r = ReplayGuard { window_secs, entries: Vec::new() };
        assert(entries_view(r.entries@) =~= Seq::<(Seq<char>, u64)>::empty());
        r
    }

    /// Forgets the nonces registered before the window that ends at `now`.
    pub fn purge_expired_at(&mut self, now: u64)
        ensures
            final(self)@ == kept_at(old(self)@, now, old(self).window()),
            final(self).window() == old(self).window(),
    {
        proof { use_type_invariant(&*self); }
        let c = now.saturating_sub(self.window_secs);
        assert(c == cutoff(now, self.window_secs));
        let ghost orig = self.entries@;
        let ghost pred = |e: (Seq<char>, u64)| e.1 >= cutoff(now, self.window_secs);
        let mut rest: Vec<NonceEntry> = Vec::new();
        std::mem::swap(&mut rest, &mut self.entries);
        let mut kept: Vec<NonceEntry> = Vec::new();
        let n = rest.len();
        let mut i: usize = 0;
        assert(entries_view(orig).take(0) =~= Seq::<(Seq<char>, u64)>::empty());
        proof { reveal(Seq::filter); }
        while rest.len() > 0
            invariant
                n == orig.len(),
                i + rest@.len() == n,
                rest@ == orig.skip(i as int),
                pred == (|e: (Seq<char>, u64)| e.1 >= c),
                entries_view(kept@) == entries_view(orig).take(i as int).filter(pred),
            decreases rest@.len(),
        {
            let x = rest.remove(0);
            assert(x == orig[i as int]);
            let ghost v = entries_view(orig);
            assert(v.take(i + 1).drop_last() =~= v.take(i as int));
            assert(v.take(i + 1).last() == (x.nonce@, x.created_at));
            proof { reveal(Seq::filter); }
            if x.created_at >= c {
                let ghost before = kept@;
                kept.push(x);
                assert(entries_view(kept@) =~= entries_view(before).push((x.nonce@, x.created_at)));
            }
            assert(rest@ =~= orig.skip(i + 1));
            i = i + 1;
        }
        assert(entries_view(orig).take(n as int) =~= entries_view(orig));
        proof { lemma_filter_distinct(entries_view(orig), pred); }
        self.entries = kept;
    }

    /// Forgets the nonces registered before the current window (the time
    /// counts as 0 when the clock cannot be read).
    pub fn purge_expired(&mut self)
        ensures
            exists|now: u64| final(self)@ == kept_at(old(self)@, now, old(self).window()),
            final(self).window() == old(self).window(),
    {
        let now = match unix_seconds() {
            Ok(t) => t,
            Err(_) => 0,
        };
        self.purge_expired_at(now);
    }

    /// At time `now`: forgets the nonces older than the window, then refuses
    /// `nonce` if it is still registered, or registers it.
    pub fn check_and_register_at(&mut self, nonce: &str, now: u64) -> (r: Result<(), VaultError>)
        ensures
            final(self).window() == old(self).window(),
            has_nonce(kept_at(old(self)@, now, old(self).window()), nonce@) ==> (r matches Err(e) && e is Generic
                && e.msg() == replay_msg(nonce@) && final(self)@ == kept_at(old(self)@, now, old(self).window())),
            !has_nonce(kept_at(old(self)@, now, old(self).window()), nonce@) ==> (r is Ok && final(self)@
                == kept_at(old(self)@, now, old(self).window()).push((nonce@, now))),
    {
        self.purge_expired_at(now);
        proof { use_type_invariant(&*self); }
        let ghost after = self@;
        let mut i: usize = 0;
        while i < self.entries.len()
            invariant
                self@ == after,
                after == kept_at(old(self)@, now, old(self).window()),
                self.window() == old(self).window(),
                i <= self.entries@.len(),
                forall|j: int| 0 <= j < i ==> self.entries@[j].nonce@ != nonce@,
            decreases self.entries@.len() - i,
        {
            if str_eq(self.entries[i].nonce.as_str(), nonce) {
                assert(entries_view(self.entries@)[i as int].0 == nonce@);
                let m = String::from_str("Replay detected: nonce '").concat(nonce).concat("' has already been used");
                return Err(VaultError::Generic(m));
            }
            i = i + 1;
        }
        let ghost before = self.entries@;
        assert(!has_nonce(entries_view(before), nonce@)) by {
            if has_nonce(entries_view(before), nonce@) {
                let j = choose|j: int| 0 <= j < entries_view(before).len() && entries_view(before)[j].0 == nonce@;
                assert(before[j].nonce@ == nonce@);
            }
        }
        let e = NonceEntry { nonce: owned(nonce), created_at: now };
        let mut entries: Vec<NonceEntry> = Vec::new();
        std::mem::swap(&mut entries, &mut self.entries);
        entries.push(e);
        assert(entries_view(entries@) =~= entries_view(before).push((nonce@, now)));
        assert(distinct_nonces(entries_view(entries@))) by {
            let v = entries_view(entries@);
            assert forall|a: int, b: int| 0 <= a < b < v.len() implies v[a].0 != v[b].0 by {
                if b == v.len() - 1 {
                    assert(v[a] == entries_view(before)[a]);
                } else {
                    assert(v[a] == entries_view(before)[a] && v[b] == entries_view(before)[b]);
                }
            }
        }
        self.entries = entries;
        Ok(())
    }

    /// `check_and_register_at` at the current time (0 when the clock cannot be read).
    pub fn check_and_register(&mut self, nonce: &str) -> (r: Result<(), VaultError>)
        ensures
            final(self).window() == old(self).window(),
            exists|now: u64| {
                &&& has_nonce(kept_at(old(self)@, now, old(self).window()), nonce@) ==> (r matches Err(e)
                    && e is Generic && e.msg() == replay_msg(nonce@) && final(self)@ == kept_at(old(self)@, now,
                    old(self).window()))
                &&& !has_nonce(kept_at(old(self)@, now, old(self).window()), nonce@) ==> (r is Ok && final(self)@
                    == kept_at(old(self)@, now, old(self).window()).push((nonce@, now)))
            },
    {
        let now = match unix_seconds() {
            Ok(t) => t,
            Err(_) => 0,
        };
        self.check_and_register_at(nonce, now)
    }

    /// How many nonces are registered.
    pub fn active_count(&self) -> (r: usize)
        ensures
            r == self@.len(),
    {
        self.entries.len()
    }
}

/// Law: a nonce registered at time `t` is refused at any later time `t2` whose
/// window still reaches back to `t`.
pub proof fn law_replay_within_window(s: Seq<(Seq<char>, u64)>, window: u64, nonce: Seq<char>, t: u64, t2: u64)
    requires
        cutoff(t2, window) <= t,
    ensures
        has_nonce(kept_at(kept_at(s, t, window).push((nonce, t)), t2, window), nonce),
{
    let s1 = kept_at(s, t, window).push((nonce, t));
    let p = |e: (Seq<char>, u64)| e.1 >= cutoff(t2, window);
    reveal(Seq::filter);
    assert(s1.drop_last() == kept_at(s, t, window));
    assert(p(s1.last()));
    assert(s1.filter(p) == s1.drop_last().filter(p).push(s1.last()));
    let f = s1.filter(p);
    assert(f[f.len() - 1].0 == nonce);
}

} // verus!
