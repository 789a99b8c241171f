//! The audit trail: what was done to which target, by whom, and whether it worked.

use vstd::prelude::*;
use vstd::string::StringExecFns;
use crate::clock::{format_utc, now_seconds, utc_text};
use crate::text::{i64_to_string, int_text, lowercase, owned, push_str, str_eq, to_lowercase};

verus! {

/// The kinds of audited action.
#[derive(Debug, Clone, Copy, PartialEq, Eq, Structural)]
pub enum AuditAction {
    BundleCreate,
    BundleOpen,
    BundleDelete,
    SecretAdd,
    SecretGet,
    SecretRemove,
    KeyringUnlock,
    KeyringLock,
    ConfigLoad,
}

/// The name of an action as it is displayed (its variant name).
pub open spec fn action_name(a: AuditAction) -> Seq<char> {
    match a {
        AuditAction::BundleCreate => "BundleCreate"@,
        AuditAction::BundleOpen => "BundleOpen"@,
        AuditAction::BundleDelete => "BundleDelete"@,
        AuditAction::SecretAdd => "SecretAdd"@,
        AuditAction::SecretGet => "SecretGet"@,
        AuditAction::SecretRemove => "SecretRemove"@,
        AuditAction::KeyringUnlock => "KeyringUnlock"@,
        AuditAction::KeyringLock => "KeyringLock"@,
        AuditAction::ConfigLoad => "ConfigLoad"@,
    }
}

/// The action a snake-case name (such as `secret_add`) stands for, if any.
pub open spec fn action_named(s: Seq<char>) -> Option<AuditAction> {
    if s == "bundle_create"@ {
        Some(AuditAction::BundleCreate)
    } else if s == "bundle_open"@ {
        Some(AuditAction::BundleOpen)
    } else if s == "bundle_delete"@ {
        Some(AuditAction::BundleDelete)
    } else if s == "secret_add"@ {
        Some(AuditAction::SecretAdd)
    } else if s == "secret_get"@ {
        Some(AuditAction::SecretGet)
    } else if s == "secret_remove"@ {
        Some(AuditAction::SecretRemove)
    } else if s == "keyring_unlock"@ {
        Some(AuditAction::KeyringUnlock)
    } else if s == "keyring_lock"@ {
        Some(AuditAction::KeyringLock)
    } else if s == "config_load"@ {
        Some(AuditAction::ConfigLoad)
    } else {
        None
    }
}

impl AuditAction {
    /// The name of the action as it is displayed (its variant name).
    pub fn name(&self) -> (r: &'static str)
        ensures
            r@ == action_name(*self),
    {
        match self {
            AuditAction::BundleCreate => "BundleCreate",
            AuditAction::BundleOpen => "BundleOpen",
            AuditAction::BundleDelete => "BundleDelete",
            AuditAction::SecretAdd => "SecretAdd",
            AuditAction::SecretGet => "SecretGet",
            AuditAction::SecretRemove => "SecretRemove",
            AuditAction::KeyringUnlock => "KeyringUnlock",
            AuditAction::KeyringLock => "KeyringLock",
            AuditAction::ConfigLoad => "ConfigLoad",
        }
    }
}

/// The action a name stands for, ignoring case: `bundle_create`, `bundle_open`,
/// `bundle_delete`, `secret_add`, `secret_get`, `secret_remove`,
/// `keyring_unlock`, `keyring_lock` or `config_load`.
pub fn audit_action_from_str(s: &str) -> (r: Option<AuditAction>)
    ensures
        r == action_named(lowercase(s@)),
{
    let l = to_lowercase(s);
    let t = l.as_str();
    if str_eq(t, "bundle_create") {
        Some(AuditAction::BundleCreate)
    } else if str_eq(t, "bundle_open") {
        Some(AuditAction::BundleOpen)
    } else if str_eq(t, "bundle_delete") {
        Some(AuditAction::BundleDelete)
    } else if str_eq(t, "secret_add") {
        Some(AuditAction::SecretAdd)
    } else if str_eq(t, "secret_get") {
        Some(AuditAction::SecretGet)
    } else if str_eq(t, "secret_remove") {
        Some(AuditAction::SecretRemove)
    } else if str_eq(t, "keyring_unlock") {
        Some(AuditAction::KeyringUnlock)
    } else if str_eq(t, "keyring_lock") {
        Some(AuditAction::KeyringLock)
    } else if str_eq(t, "config_load") {
        Some(AuditAction::ConfigLoad)
    } else {
        None
    }
}

/// One audit record: when (seconds since the Unix epoch, UTC), what, on which
/// target, by whom, whether it worked, and details.
#[derive(Debug, Clone)]
pub struct AuditEntry {
    pub timestamp: i64,
    pub action: AuditAction,
    pub target: String,
    pub user: Option<String>,
    pub success: bool,
    pub detail: Option<String>,
}

/// A record of `action` on `target`, made now, by `user`.
pub fn make_entry(action: AuditAction, target: &str, success: bool, detail: Option<String>, user: Option<String>) -> (r: AuditEntry)
    ensures
        r.action == action,
        r.target@ == target@,
        r.success == success,
        r.detail == detail,
        r.user == user,
{
    AuditEntry { timestamp: now_seconds(), action, target: owned(target), user, success, detail }
}

/// The audit log file.
#[derive(Debug, Clone)]
pub struct AuditLog {
    pub path: String,
}

impl AuditLog {
    /// The log kept at `path`.
    pub fn new(path: &str) -> (r: AuditLog)
        ensures
            r.path@ == path@,
    {
        AuditLog { path: owned(path) }
    }
}

/// The `key=<key>` detail of a record about one secret.
pub open spec fn key_detail(key: Seq<char>) -> Seq<char> {
    "key="@ + key
}

fn key_detail_exec(key: &str) -> (r: Option<String>)
    ensures
        r matches Some(d) && d@ == key_detail(key@),
{
    let mut d = String::from_str("key=");
    push_str(&mut d, key);
    Some(d)
}

/// The records of vault operations, kept in an audit log.
#[derive(Debug, Clone)]
pub struct AuditStore {
    pub log: AuditLog,
}

impl AuditStore {
    /// The store whose log is at `path`.
    pub fn new(path: &str) -> (r: AuditStore)
        ensures
            r.log.path@ == path@,
    {
        AuditStore { log: AuditLog::new(path) }
    }

    /// The record of creating bundle `name`.
    pub fn log_bundle_create(&self, name: &str, success: bool, user: Option<String>) -> (r: AuditEntry)
        ensures
            r.action == AuditAction::BundleCreate && r.target@ == name@ && r.success == success && r.detail is None
                && r.user == user,
    {
        make_entry(AuditAction::BundleCreate, name, success, None, user)
    }

    /// The record of adding secret `key` to `bundle`.
    pub fn log_secret_add(&self, bundle: &str, key: &str, success: bool, user: Option<String>) -> (r: AuditEntry)
        ensures
            r.action == AuditAction::SecretAdd && r.target@ == bundle@ && r.success == success && r.user == user
                && (r.detail matches Some(d) && d@ == key_detail(key@)),
    {
        make_entry(AuditAction::SecretAdd, bundle, success, key_detail_exec(key), user)
    }

    /// The record of reading secret `key` of `bundle`.
    pub fn log_secret_get(&self, bundle: &str, key: &str, success: bool, user: Option<String>) -> (r: AuditEntry)
        ensures
            r.action == AuditAction::SecretGet && r.target@ == bundle@ && r.success == success && r.user == user
                && (r.detail matches Some(d) && d@ == key_detail(key@)),
    {
        make_entry(AuditAction::SecretGet, bundle, success, key_detail_exec(key), user)
    }

    /// The record of removing secret `key` from `bundle`.
    pub fn log_secret_remove(&self, bundle: &str, key: &str, success: bool, user: Option<String>) -> (r: AuditEntry)
        ensures
            r.action == AuditAction::SecretRemove && r.target@ == bundle@ && r.success == success && r.user == user
                && (r.detail matches Some(d) && d@ == key_detail(key@)),
    {
        make_entry(AuditAction::SecretRemove, bundle, success, key_detail_exec(key), user)
    }

    /// The record of unlocking keyring `name`.
    pub fn log_keyring_unlock(&self, name: &str, success: bool, user: Option<String>) -> (r: AuditEntry)
        ensures
            r.action == AuditAction::KeyringUnlock && r.target@ == name@ && r.success == success && r.detail is None
                && r.user == user,
    {
        make_entry(AuditAction::KeyringUnlock, name, success, None, user)
    }
}

/// The entry is kept by the filter: there is none, or it names the entry's
/// action (compared in lowercase).
pub open spec fn kept_by(e: AuditEntry, filter: Option<Seq<char>>) -> bool {
    match filter {
        Some(f) => lowercase(action_name(e.action)) == lowercase(f),
        None => true,
    }
}

/// The entries kept by the filter, newest (last) first, at most `limit` of them.
pub open spec fn recent_kept(s: Seq<AuditEntry>, filter: Option<Seq<char>>, limit: nat) -> Seq<AuditEntry>
    decreases s.len(),
{
    if s.len() == 0 || limit == 0 {
        Seq::empty()
    } else if kept_by(s.last(), filter) {
        seq![s.last()] + recent_kept(s.drop_last(), filter, (limit - 1) as nat)
    } else {
        recent_kept(s.drop_last(), filter, limit)
    }
}

/// The entries to list: those whose action matches `filter` (if any), newest
/// first, at most `limit`.
pub fn recent_entries<'a>(entries: &'a [AuditEntry], filter: Option<&str>, limit: usize) -> (r: Vec<&'a AuditEntry>)
    ensures
        r@.map_values(|e: &AuditEntry| *e) == recent_kept(entries@, match filter {
            Some(f) => Some(f@),
            None => None,
        }, limit as nat),
{
    let ghost fv = match filter {
        Some(f) => Some(f@),
        None => None::<Seq<char>>,
    };
    let lf = match filter {
        Some(f) => Some(to_lowercase(f)),
        None => None,
    };
    let mut out: Vec<&AuditEntry> = Vec::new();
    let mut i: usize = entries.len();
    let ghost s = entries@;
    assert(s.take(s.len() as int) =~= s);
    while i > 0 && out.len() < limit
        invariant
            s == entries@,
            i <= s.len(),
            out@.len() <= limit,
            match lf {
                Some(l) => fv matches Some(f) && l@ == lowercase(f),
                None => fv is None,
            },
            recent_kept(s, fv, limit as nat) == out@.map_values(|e: &AuditEntry| *e) + recent_kept(s.take(i as int),
                fv, (limit - out@.len()) as nat),
        decreases i,
    {
        let e = &entries[i - 1];
        let ghost t = s.take(i as int);
        assert(t.drop_last() =~= s.take(i - 1));
        assert(t.last() == *e);
        let keep = match &lf {
            Some(l) => {
                let n = to_lowercase(e.action.name());
                str_eq(n.as_str(), l.as_str())
            },
            None => true,
        };
        assert(keep == kept_by(*e, fv));
        if keep {
            let ghost before = out@;
            out.push(e);
            assert(out@.map_values(|x: &AuditEntry| *x) =~= before.map_values(|x: &AuditEntry| *x) + seq![*e]);
            assert(recent_kept(t, fv, (limit - before.len()) as nat) == seq![*e] + recent_kept(s.take(i - 1), fv,
                (limit - out@.len()) as nat));
            assert(before.map_values(|x: &AuditEntry| *x) + (seq![*e] + recent_kept(s.take(i - 1), fv,
                (limit - out@.len()) as nat)) =~= out@.map_values(|x: &AuditEntry| *x) + recent_kept(s.take(i - 1), fv,
                (limit - out@.len()) as nat));
        }
        i = i - 1;
    }
    proof {
        if i == 0 {
            assert(s.take(0) =~= Seq::<AuditEntry>::empty());
        }
        assert(recent_kept(s.take(i as int), fv, (limit - out@.len()) as nat) =~= Seq::<AuditEntry>::empty());
    }
    assert(out@.map_values(|e: &AuditEntry| *e) + Seq::<AuditEntry>::empty() =~= out@.map_values(|e: &AuditEntry| *e));
    out
}

/// The status word of a record: `OK` or `FAIL`.
pub fn status_word(success: bool) -> (r: &'static str)
    ensures
        success ==> r@ == "OK"@,
        !success ==> r@ == "FAIL"@,
{
    if success { "OK" } else { "FAIL" }
}

/// The time of a record as listed: `%Y-%m-%d %H:%M:%S`, or the number of
/// seconds when the time is out of range.
pub open spec fn entry_time(ts: i64) -> Seq<char> {
    match utc_text(ts) {
        Some(t) => t,
        None => int_text(ts as int),
    }
}

/// The line listing a record: `[time] [OK|FAIL] Action -> target detail`.
pub open spec fn entry_line(e: AuditEntry) -> Seq<char> {
    "["@ + entry_time(e.timestamp) + "] ["@ + (if e.success { "OK"@ } else { "FAIL"@ }) + "] "@ + action_name(e.action)
        + " -> "@ + e.target@ + " "@ + match e.detail {
        Some(d) => d@,
        None => Seq::<char>::empty(),
    }
}

/// The line listing a record (see `entry_line`).
pub fn audit_line(e: &AuditEntry) -> (r: String)
    ensures
        r@ == entry_line(*e),
{
    let time = match format_utc(e.timestamp) {
        Some(t) => t,
        None => i64_to_string(e.timestamp),
    };
    let mut s = String::from_str("[");
    push_str(&mut s, time.as_str());
    push_str(&mut s, "] [");
    push_str(&mut s, status_word(e.success));
    push_str(&mut s, "] ");
    push_str(&mut s, e.action.name());
    push_str(&mut s, " -> ");
    push_str(&mut s, e.target.as_str());
    push_str(&mut s, " ");
    match &e.detail {
        Some(d) => push_str(&mut s, d.as_str()),
        None => {
            assert(s@ + Seq::<char>::empty() =~= s@);
        },
    }
    s
}

} // verus!
