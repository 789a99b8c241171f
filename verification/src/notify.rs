//! Notifications: events, the rules that route them to channels, and the store
//! of rules.

use vstd::prelude::*;
use vstd::string::StringExecFns;
use crate::error::VaultError;
use crate::text::{owned, push_str, str_eq};

verus! {

/// Something that happened to a secret, bundle or policy, with what it concerns.
#[derive(Debug, Clone, PartialEq, Eq)]
pub enum NotifyEvent {
    SecretAccessed(String),
    SecretRotated(String),
    SecretExpired(String),
    BundleUnlocked(String),
    PolicyViolation(String),
    QuotaExceeded(String),
}

/// Where notifications go.
#[derive(Debug, Clone, PartialEq, Eq)]
pub enum NotifyChannel {
    Stdout,
    File(String),
    Webhook(String),
}

/// A rule: events of kind `event` (or `*`, every kind) go to `channel`.
#[derive(Debug, Clone)]
pub struct NotifyRule {
    pub event: String,
    pub channel: NotifyChannel,
    pub filter: Option<String>,
}

/// The kind of an event, as rules name it.
pub open spec fn event_kind(e: NotifyEvent) -> Seq<char> {
    match e {
        NotifyEvent::SecretAccessed(_) => "access"@,
        NotifyEvent::SecretRotated(_) => "rotate"@,
        NotifyEvent::SecretExpired(_) => "expire"@,
        NotifyEvent::BundleUnlocked(_) => "unlock"@,
        NotifyEvent::PolicyViolation(_) => "policy"@,
        NotifyEvent::QuotaExceeded(_) => "quota"@,
    }
}

/// The line written for an event.
pub open spec fn event_message(e: NotifyEvent) -> Seq<char> {
    match e {
        NotifyEvent::SecretAccessed(k) => "[ACCESS] Secret accessed: "@ + k@,
        NotifyEvent::SecretRotated(k) => "[ROTATE] Secret rotated: "@ + k@,
        NotifyEvent::SecretExpired(k) => "[EXPIRE] Secret expired: "@ + k@,
        NotifyEvent::BundleUnlocked(b) => "[UNLOCK] Bundle unlocked: "@ + b@,
        NotifyEvent::PolicyViolation(p) => "[POLICY] Policy violation: "@ + p@,
        NotifyEvent::QuotaExceeded(q) => "[QUOTA] Quota exceeded: "@ + q@,
    }
}

/// The rule applies to the event.
pub open spec fn rule_applies(e: NotifyEvent, r: NotifyRule) -> bool {
    r.event@ == "*"@ || r.event@ == event_kind(e)
}

/// The channels of the rules that apply to the event, in rule order.
pub open spec fn targets(e: NotifyEvent, rules: Seq<NotifyRule>) -> Seq<NotifyChannel>
    decreases rules.len(),
{
    if rules.len() == 0 {
        Seq::empty()
    } else {
        let rest = targets(e, rules.drop_last());
        if rule_applies(e, rules.last()) {
            rest.push(rules.last().channel)
        } else {
            rest
        }
    }
}

impl NotifyEvent {
    /// The line written for the event, such as `[ACCESS] Secret accessed: db_pass`.
    pub fn message(&self) -> (r: String)
        ensures
            r@ == event_message(*self),
    {
        let (head, subject) = match self {
            NotifyEvent::SecretAccessed(k) => ("[ACCESS] Secret accessed: ", k),
            NotifyEvent::SecretRotated(k) => ("[ROTATE] Secret rotated: ", k),
            NotifyEvent::SecretExpired(k) => ("[EXPIRE] Secret expired: ", k),
            NotifyEvent::BundleUnlocked(b) => ("[UNLOCK] Bundle unlocked: ", b),
            NotifyEvent::PolicyViolation(p) => ("[POLICY] Policy violation: ", p),
            NotifyEvent::QuotaExceeded(q) => ("[QUOTA] Quota exceeded: ", q),
        };
        let mut s = String::from_str(head);
        push_str(&mut s, subject.as_str());
        s
    }

    /// The kind of the event, as rules name it.
    pub fn kind(&self) -> (r: &'static str)
        ensures
            r@ == event_kind(*self),
    {
        match self {
            NotifyEvent::SecretAccessed(_) => "access",
            NotifyEvent::SecretRotated(_) => "rotate",
            NotifyEvent::SecretExpired(_) => "expire",
            NotifyEvent::BundleUnlocked(_) => "unlock",
            NotifyEvent::PolicyViolation(_) => "policy",
            NotifyEvent::QuotaExceeded(_) => "quota",
        }
    }
}

/// Whether the rule applies to the event: its event is `*` or the event's kind.
pub fn matches_rule(event: &NotifyEvent, rule: &NotifyRule) -> (r: bool)
    ensures
        r == rule_applies(*event, *rule),
{
    str_eq(rule.event.as_str(), "*") || str_eq(rule.event.as_str(), event.kind())
}

/// The channels the event goes to: one per applying rule, in rule order.
pub fn dispatch<'a>(event: &NotifyEvent, rules: &'a [NotifyRule]) -> (r: Vec<&'a NotifyChannel>)
    ensures
        r@.map_values(|c: &NotifyChannel| *c) == targets(*event, rules@),
{
    let mut out: Vec<&NotifyChannel> = Vec::new();
    let mut i: usize = 0;
    assert(rules@.take(0) =~= Seq::<NotifyRule>::empty());
    while i < rules.len()
        invariant
            i <= rules@.len(),
            out@.map_values(|c: &NotifyChannel| *c) == targets(*event, rules@.take(i as int)),
        decreases rules@.len() - i,
    {
        assert(rules@.take(i + 1).drop_last() =~= rules@.take(i as int));
        if matches_rule(event, &rules[i]) {
            let ghost before = out@;
            out.push(&rules[i].channel);
            assert(out@.map_values(|c: &NotifyChannel| *c) =~= before.map_values(|c: &NotifyChannel| *c).push(
                rules@[i as int].channel,
            ));
        }
        i = i + 1;
    }
    assert(rules@.take(rules@.len() as int) =~= rules@);
    out
}

/// The notification rules.
#[derive(Debug, Clone)]
pub struct NotifyStore {
    pub rules: Vec<NotifyRule>,
}

/// The rules whose event is not `event`, in order.
pub open spec fn rules_without(rules: Seq<NotifyRule>, event: Seq<char>) -> Seq<NotifyRule> {
    rules.filter(|r: NotifyRule| r.event@ != event)
}

impl NotifyStore {
    /// A store with no rules.
    pub fn default() -> (r: NotifyStore)
        ensures
            r.rules@.len() == 0,
    {
        NotifyStore { rules: Vec::new() }
    }

    /// Adds a rule at the end.
    pub fn add_rule(&mut self, event: &str, channel: NotifyChannel, filter: Option<String>)
        ensures
            final(self).rules@.len() == old(self).rules@.len() + 1,
            final(self).rules@.drop_last() == old(self).rules@,
            final(self).rules@.last().event@ == event@,
            final(self).rules@.last().channel == channel,
            final(self).rules@.last().filter == filter,
    {
        self.rules.push(NotifyRule { event: owned(event), channel, filter });
        assert(self.rules@.drop_last() =~= old(self).rules@);
    }

    /// Removes the rules for `event` and returns how many there were.
    pub fn remove_rules_for_event(&mut self, event: &str) -> (r: usize)
        ensures
            final(self).rules@ == rules_without(old(self).rules@, event@),
            r == old(self).rules@.len() - final(self).rules@.len(),
    {
        let ghost orig = self.rules@;
        let ghost keep = |x: NotifyRule| x.event@ != event@;
        let mut rest: Vec<NotifyRule> = Vec::new();
        std::mem::swap(&mut rest, &mut self.rules);
        let n = rest.len();
        let mut kept: Vec<NotifyRule> = Vec::new();
        let mut i: usize = 0;
        assert(orig.take(0) =~= Seq::<NotifyRule>::empty());
        proof { reveal(Seq::filter); }
        while rest.len() > 0
            invariant
                n == orig.len(),
                i + rest@.len() == n,
                rest@ == orig.skip(i as int),
                keep == (|x: NotifyRule| x.event@ != event@),
                kept@ == orig.take(i as int).filter(keep),
                kept@.len() <= i,
            decreases rest@.len(),
        {
            let x = rest.remove(0);
            assert(x == orig[i as int]);
            assert(orig.take(i + 1).drop_last() =~= orig.take(i as int));
            proof { reveal(Seq::filter); }
            if !str_eq(x.event.as_str(), event) {
                kept.push(x);
            }
            assert(rest@ =~= orig.skip(i + 1));
            i = i + 1;
        }
        assert(orig.take(n as int) =~= orig);
        let removed = n - kept.len();
        self.rules = kept;
        removed
    }

    /// The rules, in order.
    pub fn list(&self) -> (r: &[NotifyRule])
        ensures
            r@ == self.rules@,
    {
        self.rules.as_slice()
    }
}

/// Where the notification rules are kept.
pub fn store_path() -> (r: String)
    ensures
        r@ == ".vaultkey/notify.toml"@,
{
    String::from_str(".vaultkey/notify.toml")
}

/// The channel a `kind` and optional target name: `stdout`; `file` with a
/// path; `webhook` with a URL.
pub fn parse_channel(kind: &str, target: Option<&str>) -> (r: Result<NotifyChannel, VaultError>)
    ensures
        kind@ == "stdout"@ ==> r == Ok::<NotifyChannel, VaultError>(NotifyChannel::Stdout),
        kind@ == "file"@ ==> match target {
            Some(t) => r matches Ok(NotifyChannel::File(p)) && p@ == t@,
            None => r matches Err(e) && e is Config && e.msg() == "file target required"@,
        },
        kind@ == "webhook"@ ==> match target {
            Some(t) => r matches Ok(NotifyChannel::Webhook(u)) && u@ == t@,
            None => r matches Err(e) && e is Config && e.msg() == "webhook url required"@,
        },
        kind@ != "stdout"@ && kind@ != "file"@ && kind@ != "webhook"@ ==> (r matches Err(e) && e is Config
            && e.msg() == "unknown channel type: "@ + kind@),
{
    proof {
        reveal_strlit("stdout");
        reveal_strlit("file");
        reveal_strlit("webhook");
        assert("stdout"@.len() == 6 && "file"@.len() == 4 && "webhook"@.len() == 7);
    }
    if str_eq(kind, "stdout") {
        Ok(NotifyChannel::Stdout)
    } else if str_eq(kind, "file") {
        match target {
            Some(t) => Ok(NotifyChannel::File(owned(t))),
            None => Err(VaultError::Config(String::from_str("file target required"))),
        }
    } else if str_eq(kind, "webhook") {
        match target {
            Some(t) => Ok(NotifyChannel::Webhook(owned(t))),
            None => Err(VaultError::Config(String::from_str("webhook url required"))),
        }
    } else {
        Err(VaultError::Config(String::from_str("unknown channel type: ").concat(kind)))
    }
}

/// The name and target of a channel, as listed.
pub fn channel_display(ch: &NotifyChannel) -> (r: (&'static str, String))
    ensures
        match *ch {
            NotifyChannel::Stdout => r.0@ == "stdout"@ && r.1@ == Seq::<char>::empty(),
            NotifyChannel::File(p) => r.0@ == "file"@ && r.1@ == p@,
            NotifyChannel::Webhook(u) => r.0@ == "webhook"@ && r.1@ == u@,
        },
{
    match ch {
        NotifyChannel::Stdout => ("stdout", String::new()),
        NotifyChannel::File(p) => ("file", owned(p.as_str())),
        NotifyChannel::Webhook(u) => ("webhook", owned(u.as_str())),
    }
}

/// The event of a kind, concerning `key`, used to test the rules.
pub fn build_test_event(kind: &str, key: &str) -> (r: Result<NotifyEvent, VaultError>)
    ensures
        r matches Ok(e) ==> event_kind(e) == kind@,
        r matches Ok(e) ==> match e {
            NotifyEvent::SecretAccessed(k) => k@ == key@,
            NotifyEvent::SecretRotated(k) => k@ == key@,
            NotifyEvent::SecretExpired(k) => k@ == key@,
            NotifyEvent::BundleUnlocked(k) => k@ == key@,
            NotifyEvent::PolicyViolation(k) => k@ == key@,
            NotifyEvent::QuotaExceeded(k) => k@ == key@,
        },
        (kind@ == "access"@ || kind@ == "rotate"@ || kind@ == "expire"@ || kind@ == "unlock"@ || kind@ == "policy"@
            || kind@ == "quota"@) <==> r is Ok,
        r matches Err(e) ==> e is Config && e.msg() == "unknown event type: "@ + kind@,
{
    let k = owned(key);
    if str_eq(kind, "access") {
        Ok(NotifyEvent::SecretAccessed(k))
    } else if str_eq(kind, "rotate") {
        Ok(NotifyEvent::SecretRotated(k))
    } else if str_eq(kind, "expire") {
        Ok(NotifyEvent::SecretExpired(k))
    } else if str_eq(kind, "unlock") {
        Ok(NotifyEvent::BundleUnlocked(k))
    } else if str_eq(kind, "policy") {
        Ok(NotifyEvent::PolicyViolation(k))
    } else if str_eq(kind, "quota") {
        Ok(NotifyEvent::QuotaExceeded(k))
    } else {
        Err(VaultError::Config(String::from_str("unknown event type: ").concat(kind)))
    }
}

} // verus!
