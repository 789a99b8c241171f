//! Expiry dates of secrets, with an optional warning period before each.

use vstd::prelude::*;
use vstd::string::StringExecFns;
use crate::clock::now_seconds;
use crate::error::VaultError;
use crate::strmap::{StrMap, has_key, insert_spec, key_index, lemma_key_index, lemma_remove_unique, lookup, remove_spec, unique_keys};
use crate::report::{shown_time, shown_time_exec};
use crate::text::{decimal, i64_to_string, int_text, owned, push_str, usize_to_string};

verus! {

/// The largest warning period, in seconds, that `chrono::Duration::seconds` accepts.
pub const MAX_NOTICE_SECS: i64 = 9_223_372_036_854_775;

/// A key, when it expires (seconds since the Unix epoch, UTC) and how many
/// seconds before that to warn.
#[derive(Debug, Clone, PartialEq, Eq)]
pub struct ExpireEntry {
    pub key: String,
    pub expires_at: i64,
    pub notify_before_secs: Option<i64>,
}

impl DeepView for ExpireEntry {
    type V = ExpireEntry;

    open spec fn deep_view(&self) -> ExpireEntry {
        *self
    }
}

/// The entry has expired at `now`.
pub open spec fn expired_at(e: ExpireEntry, now: i64) -> bool {
    now >= e.expires_at
}

/// The warning period is one `chrono::Duration::seconds` accepts.
pub open spec fn notice_ok(e: ExpireEntry) -> bool {
    e.notify_before_secs matches Some(s) ==> -MAX_NOTICE_SECS <= s <= MAX_NOTICE_SECS
}

/// The entry is in its warning period at `now`: past `expires_at` minus the
/// notice, but not yet expired.
pub open spec fn expiring_soon_at(e: ExpireEntry, now: i64) -> bool {
    match e.notify_before_secs {
        Some(s) => now >= e.expires_at - s && !expired_at(e, now),
        None => false,
    }
}

/// The whole seconds left at `now`, none once expired (at most `i64::MAX`).
pub open spec fn seconds_left(e: ExpireEntry, now: i64) -> i64 {
    if e.expires_at <= now {
        0
    } else if e.expires_at - now > i64::MAX {
        i64::MAX
    } else {
        (e.expires_at - now) as i64
    }
}

impl ExpireEntry {
    /// An entry for `key`.
    pub fn new(key: &str, expires_at: i64, notify_before_secs: Option<i64>) -> (r: ExpireEntry)
        ensures
            r.key@ == key@,
            r.expires_at == expires_at,
            r.notify_before_secs == notify_before_secs,
    {
        ExpireEntry { key: owned(key), expires_at, notify_before_secs }
    }

    /// Whether the entry has expired at `now`.
    pub fn is_expired_at(&self, now: i64) -> (r: bool)
        ensures
            r == expired_at(*self, now),
    {
        now >= self.expires_at
    }

    /// Whether the entry has expired.
    pub fn is_expired(&self) -> (r: bool)
        ensures
            exists|now: i64| r == expired_at(*self, now),
    {
        self.is_expired_at(now_seconds())
    }

    /// Whether the entry is in its warning period at `now`.
    pub fn is_expiring_soon_at(&self, now: i64) -> (r: bool)
        requires
            notice_ok(*self),
        ensures
            r == expiring_soon_at(*self, now),
    {
        match self.notify_before_secs {
            Some(secs) => {
                let threshold: i128 = self.expires_at as i128 - secs as i128;
                (now as i128) >= threshold && !self.is_expired_at(now)
            },
            None => false,
        }
    }

    /// Whether the entry is in its warning period.
    pub fn is_expiring_soon(&self) -> (r: bool)
        requires
            notice_ok(*self),
        ensures
            exists|now: i64| r == expiring_soon_at(*self, now),
    {
        self.is_expiring_soon_at(now_seconds())
    }

    /// The whole seconds left at `now`; 0 once expired.
    pub fn seconds_remaining_at(&self, now: i64) -> (r: i64)
        ensures
            r == seconds_left(*self, now),
    {
        if self.expires_at <= now {
            0
        } else {
            let d: i128 = self.expires_at as i128 - now as i128;
            if d > i64::MAX as i128 {
                i64::MAX
            } else {
                d as i64
            }
        }
    }

    /// The whole seconds left; 0 once expired.
    pub fn seconds_remaining(&self) -> (r: i64)
        ensures
            exists|now: i64| r == seconds_left(*self, now),
    {
        self.seconds_remaining_at(now_seconds())
    }
}

/// The expiry entries, by key.
pub struct ExpireRegistry {
    pub entries: StrMap<ExpireEntry>,
}

/// The message for a key with no entry.
pub open spec fn no_entry_msg(key: Seq<char>) -> Seq<char> {
    "No expiry entry for key: "@ + key
}

/// The entries for which `sel` holds at `now`, in order.
pub open spec fn selected(s: Seq<(Seq<char>, ExpireEntry)>, soon: bool, now: i64) -> Seq<ExpireEntry>
    decreases s.len(),
{
    if s.len() == 0 {
        Seq::empty()
    } else {
        let rest = selected(s.drop_last(), soon, now);
        let e = s.last().1;
        if (if soon { expiring_soon_at(e, now) } else { expired_at(e, now) }) {
            rest.push(e)
        } else {
            rest
        }
    }
}

/// The registry after removing each key in `ks` in turn.
pub open spec fn remove_all(s: Seq<(Seq<char>, ExpireEntry)>, ks: Seq<Seq<char>>) -> Seq<(Seq<char>, ExpireEntry)>
    decreases ks.len(),
{
    if ks.len() == 0 {
        s
    } else {
        remove_spec(remove_all(s, ks.drop_last()), ks.last())
    }
}

impl ExpireRegistry {
    /// An empty registry.
    pub fn new() -> (r: ExpireRegistry)
        ensures
            r.entries@ == Seq::<(Seq<char>, ExpireEntry)>::empty(),
    {
        ExpireRegistry { entries: StrMap::new() }
    }

    /// Stores `entry` under its key, replacing an earlier one.
    pub fn set(&mut self, entry: ExpireEntry)
        ensures
            final(self).entries@ == insert_spec(old(self).entries@, entry.key@, entry),
    {
        let k = owned(entry.key.as_str());
        self.entries.insert(k, entry);
    }

    /// The entry of `key`, if any.
    pub fn get(&self, key: &str) -> (r: Option<&ExpireEntry>)
        ensures
            match r {
                Some(e) => lookup(self.entries@, key@) == Some(*e),
                None => lookup(self.entries@, key@) is None,
            },
    {
        self.entries.get(key)
    }

    /// Removes the entry of `key`; fails, changing nothing, when there is none.
    pub fn remove(&mut self, key: &str) -> (r: Result<(), VaultError>)
        ensures
            has_key(old(self).entries@, key@) ==> (r is Ok && final(self).entries@ == remove_spec(old(self).entries@, key@)),
            !has_key(old(self).entries@, key@) ==> (r matches Err(e) && e is NotFound && e.msg() == no_entry_msg(key@)
                && final(self).entries@ == old(self).entries@),
    {
        match self.entries.remove(key) {
            Some(_) => Ok(()),
            None => Err(VaultError::NotFound(String::from_str("No expiry entry for key: ").concat(key))),
        }
    }

    fn select_at(&self, soon: bool, now: i64) -> (r: Vec<&ExpireEntry>)
        requires
            soon ==> forall|i: int| 0 <= i < self.entries@.len() ==> notice_ok(#[trigger] self.entries@[i].1),
        ensures
            r@.map_values(|e: &ExpireEntry| *e) == selected(self.entries@, soon, now),
    {
        let ghost s = self.entries@;
        let n = self.entries.len();
        let mut out: Vec<&ExpireEntry> = Vec::new();
        let mut i: usize = 0;
        assert(s.take(0) =~= Seq::<(Seq<char>, ExpireEntry)>::empty());
        while i < n
            invariant
                s == self.entries@,
                n == s.len(),
                i <= n,
                soon ==> forall|j: int| 0 <= j < s.len() ==> notice_ok(#[trigger] s[j].1),
                out@.map_values(|e: &ExpireEntry| *e) == selected(s.take(i as int), soon, now),
            decreases n - i,
        {
            assert(s.take(i + 1).drop_last() =~= s.take(i as int));
            let e = self.entries.value_at(i);
            let pick = if soon { e.is_expiring_soon_at(now) } else { e.is_expired_at(now) };
            if pick {
                let ghost before = out@;
                out.push(e);
                assert(out@.map_values(|e: &ExpireEntry| *e) =~= before.map_values(|e: &ExpireEntry| *e).push(*e));
            }
            i = i + 1;
        }
        assert(s.take(n as int) =~= s);
        out
    }

    /// The entries expired at `now`, in order.
    pub fn expired_keys_at(&self, now: i64) -> (r: Vec<&ExpireEntry>)
        ensures
            r@.map_values(|e: &ExpireEntry| *e) == selected(self.entries@, false, now),
    {
        self.select_at(false, now)
    }

    /// The expired entries, in order.
    pub fn expired_keys(&self) -> (r: Vec<&ExpireEntry>)
        ensures
            exists|now: i64| r@.map_values(|e: &ExpireEntry| *e) == selected(self.entries@, false, now),
    {
        self.select_at(false, now_seconds())
    }

    /// The entries in their warning period at `now`, in order.
    pub fn expiring_soon_keys_at(&self, now: i64) -> (r: Vec<&ExpireEntry>)
        requires
            forall|i: int| 0 <= i < self.entries@.len() ==> notice_ok(#[trigger] self.entries@[i].1),
        ensures
            r@.map_values(|e: &ExpireEntry| *e) == selected(self.entries@, true, now),
    {
        self.select_at(true, now)
    }

    /// The entries in their warning period, in order.
    pub fn expiring_soon_keys(&self) -> (r: Vec<&ExpireEntry>)
        requires
            forall|i: int| 0 <= i < self.entries@.len() ==> notice_ok(#[trigger] self.entries@[i].1),
        ensures
            exists|now: i64| r@.map_values(|e: &ExpireEntry| *e) == selected(self.entries@, true, now),
    {
        self.select_at(true, now_seconds())
    }

    /// Removes the entries expired at `now` and returns their keys, in order.
    pub fn purge_expired_at(&mut self, now: i64) -> (r: Vec<String>)
        ensures
            r@.map_values(|k: String| k@) == selected(old(self).entries@, false, now).map_values(|e: ExpireEntry| e.key@),
            final(self).entries@ == remove_all(old(self).entries@, r@.map_values(|k: String| k@)),
    {
        let expired = self.select_at(false, now);
        let mut keys: Vec<String> = Vec::new();
        let mut i: usize = 0;
        while i < expired.len()
            invariant
                i <= expired@.len(),
                keys@.map_values(|k: String| k@) == expired@.take(i as int).map_values(|e: &ExpireEntry| e.key@),
            decreases expired@.len() - i,
        {
            let ghost before = keys@;
            keys.push(owned(expired[i].key.as_str()));
            assert(keys@.map_values(|k: String| k@) =~= before.map_values(|k: String| k@).push(expired@[i as int].key@));
            assert(expired@.take(i + 1).map_values(|e: &ExpireEntry| e.key@) =~= expired@.take(i as int).map_values(
                |e: &ExpireEntry| e.key@,
            ).push(expired@[i as int].key@));
            i = i + 1;
        }
        assert(expired@.take(expired@.len() as int) =~= expired@);
        assert(keys@.map_values(|k: String| k@) =~= selected(self.entries@, false, now).map_values(
            |e: ExpireEntry| e.key@,
        ));
        let ghost start = self.entries@;
        let ghost ks = keys@.map_values(|k: String| k@);
        let mut j: usize = 0;
        assert(ks.take(0) =~= Seq::<Seq<char>>::empty());
        while j < keys.len()
            invariant
                ks == keys@.map_values(|k: String| k@),
                j <= ks.len(),
                self.entries@ == remove_all(start, ks.take(j as int)),
            decreases ks.len() - j,
        {
            assert(ks.take(j + 1).drop_last() =~= ks.take(j as int));
            self.entries.remove(keys[j].as_str());
            j = j + 1;
        }
        assert(ks.take(ks.len() as int) =~= ks);
        keys
    }

    /// Removes the expired entries and returns their keys, in order.
    pub fn purge_expired(&mut self) -> (r: Vec<String>)
        ensures
            exists|now: i64| r@.map_values(|k: String| k@) == selected(old(self).entries@, false, now).map_values(
                |e: ExpireEntry| e.key@,
            ) && final(self).entries@ == remove_all(old(self).entries@, r@.map_values(|k: String| k@)),
    {
        self.purge_expired_at(now_seconds())
    }
}

/// The status line of `key`'s entry at `now`: expired (with the time),
/// expiring soon or valid (with the seconds left).
pub open spec fn check_line(e: ExpireEntry, key: Seq<char>, now: i64) -> Seq<char> {
    if expired_at(e, now) {
        "[EXPIRED] '"@ + key + "' expired at "@ + shown_time(e.expires_at)
    } else if expiring_soon_at(e, now) {
        "[WARN] '"@ + key + "' expiring soon — "@ + int_text(seconds_left(e, now) as int) + " seconds remaining"@
    } else {
        "[OK] '"@ + key + "' valid — "@ + int_text(seconds_left(e, now) as int) + " seconds remaining"@
    }
}

/// The line for one entry in the listing at `now`.
pub open spec fn list_line(e: ExpireEntry, now: i64) -> Seq<char> {
    "["@ + (if expired_at(e, now) {
        "EXPIRED"@
    } else if expiring_soon_at(e, now) {
        "SOON"@
    } else {
        "OK"@
    }) + "] "@ + e.key@ + " — expires at "@ + shown_time(e.expires_at)
}

/// The listing lines of the entries at `now`, in order.
pub open spec fn list_lines(s: Seq<(Seq<char>, ExpireEntry)>, now: i64) -> Seq<Seq<char>> {
    s.map_values(|p: (Seq<char>, ExpireEntry)| list_line(p.1, now))
}

/// The keys of the entries expired at `now`, in order.
pub open spec fn expired_key_list(s: Seq<(Seq<char>, ExpireEntry)>, now: i64) -> Seq<Seq<char>> {
    selected(s, false, now).map_values(|e: ExpireEntry| e.key@)
}

/// Every entry has a warning period `chrono` accepts.
pub open spec fn notices_ok(s: Seq<(Seq<char>, ExpireEntry)>) -> bool {
    forall|i: int| 0 <= i < s.len() ==> notice_ok(#[trigger] s[i].1)
}

/// Sets `key` to expire `ttl_secs` after `now` (at the latest representable
/// time if that overflows) and returns the confirmation; fails, changing
/// nothing, when `ttl_secs` is not positive.
pub fn cmd_expire_set_at(registry: &mut ExpireRegistry, key: &str, ttl_secs: i64, notify_before_secs: Option<i64>, now: i64) -> (r: Result<String, VaultError>)
    requires
        ttl_secs <= MAX_NOTICE_SECS,
    ensures
        ttl_secs <= 0 ==> (r matches Err(e) && e is InvalidInput && e.msg() == "TTL must be positive"@
            && final(registry).entries@ == old(registry).entries@),
        ttl_secs > 0 ==> (r matches Ok(t) && t@ == "Expiry set for '"@ + key@ + "': expires in "@ + int_text(
            ttl_secs as int) + " seconds"@ && exists|e: ExpireEntry| e.key@ == key@ && e.notify_before_secs
            == notify_before_secs && e.expires_at == (if now + ttl_secs > i64::MAX { i64::MAX } else { (now + ttl_secs) as i64 })
            && final(registry).entries@ == insert_spec(old(registry).entries@, key@, e)),
{
    if ttl_secs <= 0 {
        return Err(VaultError::InvalidInput(String::from_str("TTL must be positive")));
    }
    let at: i64 = if now as i128 + ttl_secs as i128 > i64::MAX as i128 { i64::MAX } else { now + ttl_secs };
    registry.set(ExpireEntry::new(key, at, notify_before_secs));
    let mut m = String::from_str("Expiry set for '");
    push_str(&mut m, key);
    push_str(&mut m, "': expires in ");
    push_str(&mut m, i64_to_string(ttl_secs).as_str());
    push_str(&mut m, " seconds");
    Ok(m)
}

/// `cmd_expire_set_at` at the current time.
pub fn cmd_expire_set(registry: &mut ExpireRegistry, key: &str, ttl_secs: i64, notify_before_secs: Option<i64>) -> (r: Result<String, VaultError>)
    requires
        ttl_secs <= MAX_NOTICE_SECS,
    ensures
        ttl_secs <= 0 ==> (r matches Err(e) && e is InvalidInput && final(registry).entries@ == old(registry).entries@),
        ttl_secs > 0 ==> (r is Ok && exists|e: ExpireEntry| e.key@ == key@ && e.notify_before_secs == notify_before_secs
            && final(registry).entries@ == insert_spec(old(registry).entries@, key@, e)),
{
    cmd_expire_set_at(registry, key, ttl_secs, notify_before_secs, now_seconds())
}

/// The status line of `key`'s entry at `now`; fails when `key` has none.
pub fn cmd_expire_check_at(registry: &ExpireRegistry, key: &str, now: i64) -> (r: Result<String, VaultError>)
    requires
        notices_ok(registry.entries@),
    ensures
        match lookup(registry.entries@, key@) {
            Some(e) => r matches Ok(t) && t@ == check_line(e, key@, now),
            None => r matches Err(e) && e is NotFound && e.msg() == "No expiry configured for key: "@ + key@,
        },
{
    match registry.get(key) {
        None => Err(VaultError::NotFound(String::from_str("No expiry configured for key: ").concat(key))),
        Some(e) => {
            proof {
                use_type_invariant(&registry.entries);
                crate::strmap::lemma_key_index(registry.entries@, key@);
                assert(notice_ok(registry.entries@[crate::strmap::key_index(registry.entries@, key@)].1));
            }
            let mut m: String;
            if e.is_expired_at(now) {
                m = String::from_str("[EXPIRED] '");
                push_str(&mut m, key);
                push_str(&mut m, "' expired at ");
                push_str(&mut m, shown_time_exec(e.expires_at).as_str());
            } else if e.is_expiring_soon_at(now) {
                m = String::from_str("[WARN] '");
                push_str(&mut m, key);
                push_str(&mut m, "' expiring soon — ");
                push_str(&mut m, i64_to_string(e.seconds_remaining_at(now)).as_str());
                push_str(&mut m, " seconds remaining");
            } else {
                m = String::from_str("[OK] '");
                push_str(&mut m, key);
                push_str(&mut m, "' valid — ");
                push_str(&mut m, i64_to_string(e.seconds_remaining_at(now)).as_str());
                push_str(&mut m, " seconds remaining");
            }
            Ok(m)
        },
    }
}

/// `cmd_expire_check_at` at the current time.
pub fn cmd_expire_check(registry: &ExpireRegistry, key: &str) -> (r: Result<String, VaultError>)
    requires
        notices_ok(registry.entries@),
    ensures
        match lookup(registry.entries@, key@) {
            Some(e) => r matches Ok(t) && exists|now: i64| t@ == check_line(e, key@, now),
            None => r matches Err(e) && e is NotFound,
        },
{
    cmd_expire_check_at(registry, key, now_seconds())
}

/// The listing at `now`: a note when there are no entries, otherwise one line per entry.
pub fn cmd_expire_list_at(registry: &ExpireRegistry, now: i64) -> (r: Vec<String>)
    requires
        notices_ok(registry.entries@),
    ensures
        registry.entries@.len() == 0 ==> r@.map_values(|l: String| l@) == seq!["No expiry entries registered."@],
        registry.entries@.len() > 0 ==> r@.map_values(|l: String| l@) == list_lines(registry.entries@, now),
{
    let mut out: Vec<String> = Vec::new();
    let ghost s = registry.entries@;
    let n = registry.entries.len();
    if n == 0 {
        out.push(String::from_str("No expiry entries registered."));
        assert(out@.map_values(|l: String| l@) =~= seq!["No expiry entries registered."@]);
        return out;
    }
    let mut i: usize = 0;
    while i < n
        invariant
            s == registry.entries@,
            n == s.len(),
            notices_ok(s),
            i <= n,
            out@.map_values(|l: String| l@) == s.take(i as int).map_values(|p: (Seq<char>, ExpireEntry)| list_line(p.1, now)),
        decreases n - i,
    {
        let e = registry.entries.value_at(i);
        assert(notice_ok(s[i as int].1));
        let status = if e.is_expired_at(now) {
            "EXPIRED"
        } else if e.is_expiring_soon_at(now) {
            "SOON"
        } else {
            "OK"
        };
        let mut l = String::from_str("[");
        push_str(&mut l, status);
        push_str(&mut l, "] ");
        push_str(&mut l, e.key.as_str());
        push_str(&mut l, " — expires at ");
        push_str(&mut l, shown_time_exec(e.expires_at).as_str());
        let ghost before = out@;
        out.push(l);
        assert(out@.map_values(|l: String| l@) =~= before.map_values(|l: String| l@).push(l@));
        assert(s.take(i + 1).map_values(|p: (Seq<char>, ExpireEntry)| list_line(p.1, now)) =~= s.take(i as int).map_values(
            |p: (Seq<char>, ExpireEntry)| list_line(p.1, now),
        ).push(list_line(s[i as int].1, now)));
        i = i + 1;
    }
    assert(s.take(n as int) =~= s);
    out
}

/// The listing at the current time.
pub fn cmd_expire_list(registry: &ExpireRegistry) -> (r: Vec<String>)
    requires
        notices_ok(registry.entries@),
    ensures
        registry.entries@.len() == 0 ==> r@.map_values(|l: String| l@) == seq!["No expiry entries registered."@],
        registry.entries@.len() > 0 ==> exists|now: i64| #[trigger] list_lines(registry.entries@, now) == r@.map_values(
            |l: String| l@,
        ),
{
    let now = now_seconds();
    let r = cmd_expire_list_at(registry, now);
    if registry.entries.len() > 0 {
        assert(list_lines(registry.entries@, now) == r@.map_values(|l: String| l@));
    }
    r
}

/// The report of a purge at `now`: a note when nothing had expired, otherwise
/// a count and one line per removed key.
pub open spec fn purge_report(s: Seq<(Seq<char>, ExpireEntry)>, now: i64) -> Seq<Seq<char>> {
    let sel = selected(s, false, now);
    if sel.len() == 0 {
        seq!["No expired entries to purge."@]
    } else {
        seq!["Purged "@ + decimal(sel.len()) + " expired entries:"@] + sel.map_values(|e: ExpireEntry| "  - "@ + e.key@)
    }
}

/// Purges the entries expired at `now` and reports them: a note when there
/// were none, otherwise a count and one line per removed key.
pub fn cmd_expire_purge_at(registry: &mut ExpireRegistry, now: i64) -> (r: Vec<String>)
    ensures
        selected(old(registry).entries@, false, now).len() == 0 ==> r@.map_values(|l: String| l@) == seq![
            "No expired entries to purge."@],
        selected(old(registry).entries@, false, now).len() > 0 ==> r@.map_values(|l: String| l@) == seq!["Purged "@
            + decimal(selected(old(registry).entries@, false, now).len()) + " expired entries:"@] + selected(
            old(registry).entries@,
            false,
            now,
        ).map_values(|e: ExpireEntry| "  - "@ + e.key@),
        final(registry).entries@ == remove_all(old(registry).entries@, selected(old(registry).entries@, false, now).map_values(
            |e: ExpireEntry| e.key@,
        )),
        r@.map_values(|l: String| l@) == purge_report(old(registry).entries@, now),
{
    let removed = registry.purge_expired_at(now);
    let ghost ks = removed@.map_values(|k: String| k@);
    let mut out: Vec<String> = Vec::new();
    if removed.len() == 0 {
        out.push(String::from_str("No expired entries to purge."));
        assert(out@.map_values(|l: String| l@) =~= seq!["No expired entries to purge."@]);
        return out;
    }
    let mut h = String::from_str("Purged ");
    push_str(&mut h, usize_to_string(removed.len()).as_str());
    push_str(&mut h, " expired entries:");
    out.push(h);
    let ghost head = out@.map_values(|l: String| l@);
    let mut i: usize = 0;
    while i < removed.len()
        invariant
            ks == removed@.map_values(|k: String| k@),
            i <= removed@.len(),
            out@.map_values(|l: String| l@) == head + ks.take(i as int).map_values(|k: Seq<char>| "  - "@ + k),
        decreases removed@.len() - i,
    {
        let mut l = String::from_str("  - ");
        push_str(&mut l, removed[i].as_str());
        let ghost before = out@;
        out.push(l);
        assert(out@.map_values(|l: String| l@) =~= before.map_values(|l: String| l@).push(l@));
        assert(ks.take(i + 1).map_values(|k: Seq<char>| "  - "@ + k) =~= ks.take(i as int).map_values(
            |k: Seq<char>| "  - "@ + k,
        ).push("  - "@ + ks[i as int]));
        i = i + 1;
    }
    assert(ks.take(ks.len() as int) =~= ks);
    let ghost sel = selected(old(registry).entries@, false, now);
    assert(ks.map_values(|k: Seq<char>| "  - "@ + k) =~= sel.map_values(|e: ExpireEntry| "  - "@ + e.key@)) by {
        assert(ks =~= sel.map_values(|e: ExpireEntry| e.key@));
    }
    out
}

/// Purges the entries expired now and reports them.
pub fn cmd_expire_purge(registry: &mut ExpireRegistry) -> (r: Vec<String>)
    ensures
        exists|now: i64| #[trigger] remove_all(old(registry).entries@, expired_key_list(old(registry).entries@, now))
            == final(registry).entries@ && r@.map_values(|l: String| l@) == purge_report(old(registry).entries@, now),
{
    let now = now_seconds();
    let r = cmd_expire_purge_at(registry, now);
    assert(remove_all(old(registry).entries@, expired_key_list(old(registry).entries@, now)) == registry.entries@);
    r
}

/// Every entry is filed under its own key (as `set` files it).
pub open spec fn filed_by_key(s: Seq<(Seq<char>, ExpireEntry)>) -> bool {
    forall|i: int| 0 <= i < s.len() ==> (#[trigger] s[i]).1.key@ == s[i].0
}

/// After removing the keys `ks` one by one, a key has no entry if it is one of
/// them, and otherwise the entry it had.
proof fn lemma_remove_all(s: Seq<(Seq<char>, ExpireEntry)>, ks: Seq<Seq<char>>)
    requires
        unique_keys(s),
    ensures
        unique_keys(remove_all(s, ks)),
        forall|k: Seq<char>| #[trigger] lookup(remove_all(s, ks), k) == if ks.contains(k) {
            None
        } else {
            lookup(s, k)
        },
    decreases ks.len(),
{
    if ks.len() > 0 {
        let front = ks.drop_last();
        lemma_remove_all(s, front);
        let t = remove_all(s, front);
        lemma_remove_unique(t, ks.last());
        assert forall|k: Seq<char>| #[trigger] lookup(remove_all(s, ks), k) == if ks.contains(k) {
            None
        } else {
            lookup(s, k)
        } by {
            assert(remove_all(s, ks) == remove_spec(t, ks.last()));
            assert(lookup(t, k) == if front.contains(k) {
                None
            } else {
                lookup(s, k)
            });
            if k == ks.last() {
                assert(ks[ks.len() - 1] == k);
            } else {
                if ks.contains(k) {
                    let i = choose|i: int| 0 <= i < ks.len() && ks[i] == k;
                    assert(front[i] == k);
                }
                if front.contains(k) {
                    let i = choose|i: int| 0 <= i < front.len() && front[i] == k;
                    assert(ks[i] == k);
                }
            }
        }
    }
}

/// The entries that `selected` picks as expired are entries of the list that
/// have expired, and it picks every such entry.
proof fn lemma_selected_expired(s: Seq<(Seq<char>, ExpireEntry)>, now: i64)
    ensures
        forall|x: ExpireEntry| #[trigger] selected(s, false, now).contains(x) ==> expired_at(x, now)
            && exists|j: int| 0 <= j < s.len() && s[j].1 == x,
        forall|j: int| 0 <= j < s.len() && expired_at(#[trigger] s[j].1, now) ==> selected(s, false, now).contains(
            s[j].1,
        ),
    decreases s.len(),
{
    if s.len() > 0 {
        let front = s.drop_last();
        lemma_selected_expired(front, now);
        let rest = selected(front, false, now);
        let sel = selected(s, false, now);
        assert forall|x: ExpireEntry| #[trigger] sel.contains(x) implies expired_at(x, now)
            && exists|j: int| 0 <= j < s.len() && s[j].1 == x by {
            let i = choose|i: int| 0 <= i < sel.len() && sel[i] == x;
            if i < rest.len() {
                assert(rest[i] == x);
                assert(rest.contains(x));
                let j = choose|j: int| 0 <= j < front.len() && front[j].1 == x;
                assert(s[j] == front[j]);
            } else {
                assert(s[s.len() - 1].1 == x);
            }
        }
        assert forall|j: int| 0 <= j < s.len() && expired_at(#[trigger] s[j].1, now) implies sel.contains(s[j].1) by {
            if j < s.len() - 1 {
                assert(front[j] == s[j]);
                assert(rest.contains(s[j].1));
                let i = choose|i: int| 0 <= i < rest.len() && rest[i] == s[j].1;
                assert(sel[i] == s[j].1);
            } else {
                assert(sel[sel.len() - 1] == s[j].1);
            }
        }
    }
}

/// Law: a purge at `now` keeps exactly the entries that have not expired at
/// `now`, each under its key, and removes the others (for a registry whose
/// entries are filed under their own keys, as `set` files them).
pub proof fn law_purge_keeps_live(s: Seq<(Seq<char>, ExpireEntry)>, now: i64)
    requires
        unique_keys(s),
        filed_by_key(s),
    ensures
        forall|k: Seq<char>| #[trigger] lookup(remove_all(s, expired_key_list(s, now)), k) == match lookup(s, k) {
            Some(e) => if expired_at(e, now) {
                None
            } else {
                Some(e)
            },
            None => None,
        },
{
    let sel = selected(s, false, now);
    let ks = expired_key_list(s, now);
    assert(ks == sel.map_values(|e: ExpireEntry| e.key@));
    lemma_remove_all(s, ks);
    lemma_selected_expired(s, now);
    assert forall|k: Seq<char>| #[trigger] lookup(remove_all(s, ks), k) == match lookup(s, k) {
        Some(e) => if expired_at(e, now) {
            None
        } else {
            Some(e)
        },
        None => None,
    } by {
        if has_key(s, k) {
            lemma_key_index(s, k);
            let i = key_index(s, k);
            let e = s[i].1;
            assert(e.key@ == k);
            if expired_at(e, now) {
                assert(sel.contains(e));
                let m = choose|m: int| 0 <= m < sel.len() && sel[m] == e;
                assert(ks[m] == k);
                assert(ks.contains(k));
            } else if ks.contains(k) {
                let m = choose|m: int| 0 <= m < ks.len() && ks[m] == k;
                let x = sel[m];
                assert(sel.contains(x));
                let j = choose|j: int| 0 <= j < s.len() && s[j].1 == x;
                assert(s[j].0 == k);
                assert(j == i);
            }
        }
    }
}

} // verus!
