//! Secret policies: forbidden and allowed key names, a maximum value length
//! and required tags.

use vstd::prelude::*;
use vstd::string::StringExecFns;
use crate::error::VaultError;
use crate::fmt::str_len;
use crate::text::{decimal, has_prefix, join, join_strings, owned, push_str, starts_with, str_eq, usize_to_string};

verus! {

/// A named policy.
#[derive(Debug, Clone, PartialEq, Eq)]
pub struct Policy {
    pub name: String,
    pub required_tags: Vec<String>,
    pub forbidden_keys: Vec<String>,
    pub max_secret_length: Option<usize>,
    pub allowed_key_prefixes: Vec<String>,
}

/// The views of a list of strings.
pub open spec fn views(v: Seq<String>) -> Seq<Seq<char>> {
    v.map_values(|s: String| s@)
}

/// The message for a forbidden key.
pub open spec fn forbidden_msg(key: Seq<char>, policy: Seq<char>) -> Seq<char> {
    "Key '"@ + key + "' is forbidden by policy '"@ + policy + "'"@
}

/// The message for a key with none of the allowed prefixes.
pub open spec fn prefix_msg(key: Seq<char>, policy: Seq<char>) -> Seq<char> {
    "Key '"@ + key + "' does not match any allowed prefix in policy '"@ + policy + "'"@
}

/// The message for a value longer than the maximum.
pub open spec fn length_msg(max: usize, policy: Seq<char>) -> Seq<char> {
    "Secret value exceeds max length "@ + decimal(max as nat) + " defined in policy '"@ + policy + "'"@
}

/// The message for a missing required tag.
pub open spec fn tag_msg(tag: Seq<char>, policy: Seq<char>) -> Seq<char> {
    "Required tag '"@ + tag + "' missing per policy '"@ + policy + "'"@
}

/// The key starts with one of the prefixes.
pub open spec fn has_allowed_prefix(key: Seq<char>, prefixes: Seq<Seq<char>>) -> bool {
    exists|i: int| 0 <= i < prefixes.len() && has_prefix(key, #[trigger] prefixes[i])
}

/// The first required tag that is missing from `tags`, if any.
pub open spec fn first_missing(required: Seq<Seq<char>>, tags: Seq<Seq<char>>) -> Option<int> {
    if exists|i: int| 0 <= i < required.len() && !tags.contains(#[trigger] required[i]) {
        Some(choose|i: int| 0 <= i < required.len() && !tags.contains(required[i])
            && forall|j: int| 0 <= j < i ==> tags.contains(#[trigger] required[j]))
    } else {
        None
    }
}

fn contains_str(v: &Vec<String>, s: &str) -> (r: bool)
    ensures
        r == views(v@).contains(s@),
{
    let mut i: usize = 0;
    while i < v.len()
        invariant
            i <= v@.len(),
            forall|j: int| 0 <= j < i ==> v@[j]@ != s@,
        decreases v@.len() - i,
    {
        if str_eq(v[i].as_str(), s) {
            assert(views(v@)[i as int] == s@);
            return true;
        }
        i = i + 1;
    }
    assert(!views(v@).contains(s@)) by {
        if views(v@).contains(s@) {
            let j = choose|j: int| 0 <= j < views(v@).len() && views(v@)[j] == s@;
            assert(v@[j]@ == s@);
        }
    }
    false
}

impl Policy {
    /// A policy that allows everything.
    pub fn new(name: &str) -> (r: Policy)
        ensures
            r.name@ == name@,
            r.required_tags@.len() == 0,
            r.forbidden_keys@.len() == 0,
            r.max_secret_length is None,
            r.allowed_key_prefixes@.len() == 0,
    {
        Policy {
            name: owned(name),
            required_tags: Vec::new(),
            forbidden_keys: Vec::new(),
            max_secret_length: None,
            allowed_key_prefixes: Vec::new(),
        }
    }

    /// Checks a key: it must not be forbidden and, when prefixes are given,
    /// must start with one of them.
    pub fn validate_key(&self, key: &str) -> (r: Result<(), VaultError>)
        ensures
            views(self.forbidden_keys@).contains(key@) ==> (r matches Err(e) && e is PolicyViolation
                && e.msg() == forbidden_msg(key@, self.name@)),
            !views(self.forbidden_keys@).contains(key@) && self.allowed_key_prefixes@.len() > 0
                && !has_allowed_prefix(key@, views(self.allowed_key_prefixes@)) ==> (r matches Err(e)
                && e is PolicyViolation && e.msg() == prefix_msg(key@, self.name@)),
            r is Ok <==> !views(self.forbidden_keys@).contains(key@) && (self.allowed_key_prefixes@.len() == 0
                || has_allowed_prefix(key@, views(self.allowed_key_prefixes@))),
    {
        if contains_str(&self.forbidden_keys, key) {
            let m = String::from_str("Key '").concat(key).concat("' is forbidden by policy '").concat(
                self.name.as_str(),
            ).concat("'");
            return Err(VaultError::PolicyViolation(m));
        }
        if self.allowed_key_prefixes.len() > 0 {
            let ghost ps = views(self.allowed_key_prefixes@);
            let mut i: usize = 0;
            let mut allowed = false;
            while i < self.allowed_key_prefixes.len()
                invariant
                    ps == views(self.allowed_key_prefixes@),
                    i <= ps.len(),
                    allowed == exists|j: int| 0 <= j < i && has_prefix(key@, #[trigger] ps[j]),
                decreases ps.len() - i,
            {
                if starts_with(key, self.allowed_key_prefixes[i].as_str()) {
                    assert(has_prefix(key@, ps[i as int]));
                    allowed = true;
                }
                i = i + 1;
            }
            if !allowed {
                let m = String::from_str("Key '").concat(key).concat(
                    "' does not match any allowed prefix in policy '",
                ).concat(self.name.as_str()).concat("'");
                return Err(VaultError::PolicyViolation(m));
            }
        }
        Ok(())
    }

    /// Checks a value's length in bytes against the maximum, if there is one.
    pub fn validate_secret_length(&self, value: &str) -> (r: Result<(), VaultError>)
        ensures
            self.max_secret_length matches Some(m) ==> (str_len(value@) > m ==> (r matches Err(e)
                && e is PolicyViolation && e.msg() == length_msg(m, self.name@))),
            r is Ok <==> (self.max_secret_length matches Some(m) ==> str_len(value@) <= m),
    {
        match self.max_secret_length {
            Some(max) => {
                if value.len() > max {
                    let mut m = String::from_str("Secret value exceeds max length ");
                    push_str(&mut m, usize_to_string(max).as_str());
                    push_str(&mut m, " defined in policy '");
                    push_str(&mut m, self.name.as_str());
                    push_str(&mut m, "'");
                    return Err(VaultError::PolicyViolation(m));
                }
                Ok(())
            },
            None => Ok(()),
        }
    }

    /// Checks that every required tag is among `tags`; names the first missing one.
    pub fn validate_tags(&self, tags: &Vec<String>) -> (r: Result<(), VaultError>)
        ensures
            first_missing(views(self.required_tags@), views(tags@)) matches Some(i) ==> (r matches Err(e)
                && e is PolicyViolation && e.msg() == tag_msg(self.required_tags@[i]@, self.name@)),
            first_missing(views(self.required_tags@), views(tags@)) is None ==> r is Ok,
    {
        let ghost req = views(self.required_tags@);
        let ghost tv = views(tags@);
        let mut i: usize = 0;
        while i < self.required_tags.len()
            invariant
                req == views(self.required_tags@),
                tv == views(tags@),
                i <= req.len(),
                forall|j: int| 0 <= j < i ==> tv.contains(#[trigger] req[j]),
            decreases req.len() - i,
        {
            let t = self.required_tags[i].as_str();
            if !contains_str(tags, t) {
                assert(req[i as int] == t@);
                let ghost c = choose|c: int| 0 <= c < req.len() && !tv.contains(req[c])
                    && forall|j: int| 0 <= j < c ==> tv.contains(#[trigger] req[j]);
                assert(c == i as int) by {
                    if c < i {
                    } else if c > i {
                        assert(tv.contains(req[i as int]));
                    }
                }
                let m = String::from_str("Required tag '").concat(t).concat("' missing per policy '").concat(
                    self.name.as_str(),
                ).concat("'");
                return Err(VaultError::PolicyViolation(m));
            }
            i = i + 1;
        }
        Ok(())
    }
}

/// The message of the first check that fails, in the order key, value, tags;
/// `None` when all pass.
pub open spec fn check_failure(p: Policy, key: Seq<char>, value: Seq<char>, tags: Seq<Seq<char>>) -> Option<Seq<char>> {
    if views(p.forbidden_keys@).contains(key) {
        Some(forbidden_msg(key, p.name@))
    } else if p.allowed_key_prefixes@.len() > 0 && !has_allowed_prefix(key, views(p.allowed_key_prefixes@)) {
        Some(prefix_msg(key, p.name@))
    } else {
        match p.max_secret_length {
            Some(m) if str_len(value) > m => Some(length_msg(m, p.name@)),
            _ => match first_missing(views(p.required_tags@), tags) {
                Some(i) => Some(tag_msg(p.required_tags@[i]@, p.name@)),
                None => None,
            },
        }
    }
}

/// Checks a key, its value and its tags against a policy, in that order; the
/// first failure is returned.
pub fn cmd_policy_check(policy: &Policy, key: &str, value: &str, tags: &Vec<String>) -> (r: Result<(), VaultError>)
    ensures
        r is Ok <==> (!views(policy.forbidden_keys@).contains(key@) && (policy.allowed_key_prefixes@.len() == 0
            || has_allowed_prefix(key@, views(policy.allowed_key_prefixes@)))) && (policy.max_secret_length matches Some(
            m) ==> str_len(value@) <= m) && first_missing(views(policy.required_tags@), views(tags@)) is None,
        match check_failure(*policy, key@, value@, views(tags@)) {
            Some(m) => r matches Err(e) && e is PolicyViolation && e.msg() == m,
            None => r is Ok,
        },
{
    match policy.validate_key(key) {
        Err(e) => return Err(e),
        Ok(()) => {},
    }
    match policy.validate_secret_length(value) {
        Err(e) => return Err(e),
        Ok(()) => {},
    }
    policy.validate_tags(tags)
}

/// The strings joined with `, `.
fn joined(v: &Vec<String>) -> (r: String)
    ensures
        r@ == join(views(v@), ", "@),
{
    join_strings(v, ", ")
}

/// A description of a policy, one field per line.
pub open spec fn policy_text(p: Policy) -> Seq<char> {
    "Policy: "@ + p.name@ + "\n"@ + "  Required tags    : "@ + join(views(p.required_tags@), ", "@) + "\n"@
        + "  Forbidden keys   : "@ + join(views(p.forbidden_keys@), ", "@) + "\n"@ + "  Max secret length: "@
        + (match p.max_secret_length {
        Some(n) => decimal(n as nat),
        None => "unlimited"@,
    }) + "\n"@ + "  Allowed prefixes : "@ + (if p.allowed_key_prefixes@.len() == 0 {
        "any"@
    } else {
        join(views(p.allowed_key_prefixes@), ", "@)
    })
}

/// Describes a policy, one field per line.
pub fn cmd_policy_show(policy: &Policy) -> (r: String)
    ensures
        r@ == policy_text(*policy),
{
    let mut s = String::from_str("Policy: ");
    push_str(&mut s, policy.name.as_str());
    push_str(&mut s, "\n");
    push_str(&mut s, "  Required tags    : ");
    push_str(&mut s, joined(&policy.required_tags).as_str());
    push_str(&mut s, "\n");
    push_str(&mut s, "  Forbidden keys   : ");
    push_str(&mut s, joined(&policy.forbidden_keys).as_str());
    push_str(&mut s, "\n");
    push_str(&mut s, "  Max secret length: ");
    let max = match policy.max_secret_length {
        Some(n) => usize_to_string(n),
        None => String::from_str("unlimited"),
    };
    push_str(&mut s, max.as_str());
    push_str(&mut s, "\n");
    push_str(&mut s, "  Allowed prefixes : ");
    let prefixes = if policy.allowed_key_prefixes.len() == 0 {
        String::from_str("any")
    } else {
        joined(&policy.allowed_key_prefixes)
    };
    push_str(&mut s, prefixes.as_str());
    s
}

/// The names of the policies, one `- name` line each, or a note when there are none.
pub fn cmd_policy_list(policies: &[Policy]) -> (r: String)
    ensures
        policies@.len() == 0 ==> r@ == "No policies defined."@,
        policies@.len() > 0 ==> r@ == join(policies@.map_values(|p: Policy| "- "@ + p.name@), "\n"@),
{
    if policies.len() == 0 {
        return String::from_str("No policies defined.");
    }
    let mut lines: Vec<String> = Vec::new();
    let mut i: usize = 0;
    while i < policies.len()
        invariant
            i <= policies@.len(),
            views(lines@) == policies@.take(i as int).map_values(|p: Policy| "- "@ + p.name@),
        decreases policies@.len() - i,
    {
        let mut l = String::from_str("- ");
        push_str(&mut l, policies[i].name.as_str());
        let ghost before = lines@;
        lines.push(l);
        assert(views(lines@) =~= views(before).push(l@));
        assert(policies@.take(i + 1).map_values(|p: Policy| "- "@ + p.name@) =~= policies@.take(i as int).map_values(
            |p: Policy| "- "@ + p.name@,
        ).push("- "@ + policies@[i as int].name@));
        i = i + 1;
    }
    assert(policies@.take(policies@.len() as int) =~= policies@);
    let r = join_strings(&lines, "\n");
    assert(lines@.map_values(|p: String| p@) =~= views(lines@));
    r
}

} // verus!
