//! Redacting sensitive values for display.

use vstd::prelude::*;
use vstd::string::StringExecFns;
use crate::bundle::Bundle;
use crate::error::VaultError;
use crate::strmap::{keys_of, unique_keys};
use crate::text::{contains, decimal, has_substr, join, join_strings, lowercase, owned, push_str, sorted_order, str_eq, to_lowercase, usize_to_string};

verus! {

/// A bundle with some values replaced by `[REDACTED]`.
pub struct RedactedBundle {
    pub name: String,
    pub entries: Vec<RedactedEntry>,
    pub redacted_count: usize,
}

/// One secret as displayed.
pub struct RedactedEntry {
    pub key: String,
    pub value: String,
    pub was_redacted: bool,
}

/// The fragments of key names that mark a value as sensitive.
pub open spec fn sensitive_patterns() -> Seq<Seq<char>> {
    seq!["password"@, "passwd"@, "secret"@, "token"@, "api_key"@, "apikey"@, "private_key"@, "auth"@,
        "credential"@, "cert"@, "passphrase"@]
}

/// The key, lowercased, contains one of the sensitive patterns.
pub open spec fn sensitive(key: Seq<char>) -> bool {
    exists|i: int| 0 <= i < sensitive_patterns().len() && has_substr(lowercase(key), #[trigger] sensitive_patterns()[i])
}

/// Whether the key's name suggests a sensitive value.
pub fn is_sensitive_key(key: &str) -> (r: bool)
    ensures
        r == sensitive(key@),
        (has_substr(lowercase(key@), "password"@) || has_substr(lowercase(key@), "passwd"@) ||
            has_substr(lowercase(key@), "secret"@) || has_substr(lowercase(key@), "token"@) ||
            has_substr(lowercase(key@), "api_key"@) || has_substr(lowercase(key@), "apikey"@) ||
            has_substr(lowercase(key@), "private_key"@) || has_substr(lowercase(key@), "auth"@) ||
            has_substr(lowercase(key@), "credential"@) || has_substr(lowercase(key@), "cert"@) ||
            has_substr(lowercase(key@), "passphrase"@)) ==> r,
{
    proof {
        if has_substr(lowercase(key@), "password"@) || has_substr(lowercase(key@), "passwd"@) ||
            has_substr(lowercase(key@), "secret"@) || has_substr(lowercase(key@), "token"@) ||
            has_substr(lowercase(key@), "api_key"@) || has_substr(lowercase(key@), "apikey"@) ||
            has_substr(lowercase(key@), "private_key"@) || has_substr(lowercase(key@), "auth"@) ||
            has_substr(lowercase(key@), "credential"@) || has_substr(lowercase(key@), "cert"@) ||
            has_substr(lowercase(key@), "passphrase"@) {
            law_sensitive_words_are_hidden(key@, Seq::empty());
        }
    }
    let lower = to_lowercase(key);
    let l = lower.as_str();
    let ghost ps = sensitive_patterns();
    let r = contains(l, "password") || contains(l, "passwd") || contains(l, "secret") || contains(l, "token")
        || contains(l, "api_key") || contains(l, "apikey") || contains(l, "private_key") || contains(l, "auth")
        || contains(l, "credential") || contains(l, "cert") || contains(l, "passphrase");
    proof {
        if r {
            assert(sensitive(key@)) by {
                if has_substr(lower@, "password"@) { assert(ps[0] == "password"@); }
                else if has_substr(lower@, "passwd"@) { assert(ps[1] == "passwd"@); }
                else if has_substr(lower@, "secret"@) { assert(ps[2] == "secret"@); }
                else if has_substr(lower@, "token"@) { assert(ps[3] == "token"@); }
                else if has_substr(lower@, "api_key"@) { assert(ps[4] == "api_key"@); }
                else if has_substr(lower@, "apikey"@) { assert(ps[5] == "apikey"@); }
                else if has_substr(lower@, "private_key"@) { assert(ps[6] == "private_key"@); }
                else if has_substr(lower@, "auth"@) { assert(ps[7] == "auth"@); }
                else if has_substr(lower@, "credential"@) { assert(ps[8] == "credential"@); }
                else if has_substr(lower@, "cert"@) { assert(ps[9] == "cert"@); }
                else { assert(ps[10] == "passphrase"@); }
            }
        } else {
            assert(!sensitive(key@)) by {
                assert forall|i: int| 0 <= i < ps.len() implies !has_substr(lower@, #[trigger] ps[i]) by {
                    assert(i == 0 || i == 1 || i == 2 || i == 3 || i == 4 || i == 5 || i == 6 || i == 7 || i == 8
                        || i == 9 || i == 10);
                }
            }
        }
    }
    r
}

/// Whether the value of `k` is hidden.
pub open spec fn hidden(k: Seq<char>, force: Seq<Seq<char>>, show_all: bool) -> bool {
    !show_all && (sensitive(k) || force.contains(k))
}

/// The number of hidden values.
pub open spec fn hidden_count(s: Seq<(Seq<char>, Seq<char>)>, force: Seq<Seq<char>>, show_all: bool) -> nat
    decreases s.len(),
{
    if s.len() == 0 {
        0
    } else {
        hidden_count(s.drop_last(), force, show_all) + if hidden(s.last().0, force, show_all) { 1nat } else { 0nat }
    }
}

fn contains_string(v: &Vec<String>, k: &str) -> (r: bool)
    ensures
        r == v@.map_values(|s: String| s@).contains(k@),
{
    let ghost vs = v@.map_values(|s: String| s@);
    let mut i: usize = 0;
    while i < v.len()
        invariant
            vs == v@.map_values(|s: String| s@),
            i <= v@.len(),
            forall|j: int| 0 <= j < i ==> vs[j] != k@,
        decreases v@.len() - i,
    {
        if str_eq(v[i].as_str(), k) {
            assert(vs[i as int] == k@);
            return true;
        }
        i = i + 1;
    }
    false
}

proof fn lemma_hidden_count_perm(s: Seq<(Seq<char>, Seq<char>)>, force: Seq<Seq<char>>, show_all: bool, i: int)
    requires
        0 <= i < s.len(),
    ensures
        hidden_count(s.take(i + 1), force, show_all) == hidden_count(s.take(i), force, show_all)
            + if hidden(s[i].0, force, show_all) { 1nat } else { 0nat },
{
    assert(s.take(i + 1).drop_last() =~= s.take(i));
}

/// Hides the values of sensitive keys (by name, or listed in `force_keys`)
/// unless `show_all`; the entries come sorted by key.
pub fn redact_bundle(bundle: &Bundle, force_keys: &Vec<String>, show_all: bool) -> (r: Result<RedactedBundle, VaultError>)
    ensures
        r matches Ok(rb) && rb.name == bundle.name
            && rb.redacted_count == hidden_count(bundle.secrets@, force_keys@.map_values(|s: String| s@), show_all)
            && exists|order: Seq<usize>| #![auto] sorted_order(keys_of(bundle.secrets@), order)
                && rb.entries@.len() == order.len()
                && forall|i: int| 0 <= i < order.len() ==> {
                    let e = bundle.secrets@[order[i] as int];
                    let h = hidden(e.0, force_keys@.map_values(|s: String| s@), show_all);
                    &&& (#[trigger] rb.entries@[i]).key@ == e.0
                    &&& rb.entries@[i].was_redacted == h
                    &&& rb.entries@[i].value@ == if h { "[REDACTED]"@ } else { e.1 }
                },
{
    let ghost s = bundle.secrets@;
    let ghost force = force_keys@.map_values(|x: String| x@);
    let n = bundle.secrets.len();
    let mut redacted_count: usize = 0;
    let mut i: usize = 0;
    assert(s.take(0) =~= Seq::<(Seq<char>, Seq<char>)>::empty());
    while i < n
        invariant
            s == bundle.secrets@,
            force == force_keys@.map_values(|x: String| x@),
            n == s.len(),
            i <= n,
            redacted_count == hidden_count(s.take(i as int), force, show_all),
            redacted_count <= i,
        decreases n - i,
    {
        proof { lemma_hidden_count_perm(s, force, show_all, i as int); }
        let key = bundle.secrets.key_at(i);
        if !show_all && (is_sensitive_key(key.as_str()) || contains_string(force_keys, key.as_str())) {
            redacted_count = redacted_count + 1;
        }
        i = i + 1;
    }
    assert(s.take(n as int) =~= s);
    let order = bundle.secrets.sorted_indices();
    let mut entries: Vec<RedactedEntry> = Vec::new();
    let mut j: usize = 0;
    while j < order.len()
        invariant
            s == bundle.secrets@,
            force == force_keys@.map_values(|x: String| x@),
            sorted_order(keys_of(s), order@),
            j <= order@.len(),
            entries@.len() == j,
            forall|a: int| 0 <= a < j ==> {
                let e = s[order@[a] as int];
                let h = hidden(e.0, force, show_all);
                &&& (#[trigger] entries@[a]).key@ == e.0
                &&& entries@[a].was_redacted == h
                &&& entries@[a].value@ == if h { "[REDACTED]"@ } else { e.1 }
            },
        decreases order@.len() - j,
    {
        let p = order[j];
        assert((p as int) < keys_of(s).len());
        let key = bundle.secrets.key_at(p);
        let value = bundle.secrets.value_at(p);
        let h = !show_all && (is_sensitive_key(key.as_str()) || contains_string(force_keys, key.as_str()));
        let shown = if h { String::from_str("[REDACTED]") } else { value.clone() };
        entries.push(RedactedEntry { key: key.clone(), value: shown, was_redacted: h });
        j = j + 1;
    }
    Ok(RedactedBundle { name: bundle.name.clone(), entries, redacted_count })
}

/// The display line of one entry.
pub open spec fn entry_line(e: RedactedEntry) -> Seq<char> {
    "  ["@ + (if e.was_redacted { "*"@ } else { " "@ }) + "] "@ + e.key@ + " = "@ + e.value@
}

/// The lines of a redacted bundle.
pub open spec fn redacted_lines(rb: RedactedBundle) -> Seq<Seq<char>> {
    seq!["Bundle: "@ + rb.name@] + rb.entries@.map_values(|e: RedactedEntry| entry_line(e)) + (if rb.redacted_count > 0 {
        seq!["  ("@ + decimal(rb.redacted_count as nat) + " value(s) redacted)"@]
    } else {
        Seq::empty()
    })
}

/// The redacted bundle as text: a title line, a line per entry (marked `*`
/// when hidden) and a count of hidden values if there are any.
pub fn format_redacted(rb: &RedactedBundle) -> (r: String)
    ensures
        r@ == join(redacted_lines(*rb), "\n"@),
{
    let mut lines: Vec<String> = Vec::new();
    lines.push(String::from_str("Bundle: ").concat(rb.name.as_str()));
    let mut i: usize = 0;
    while i < rb.entries.len()
        invariant
            i <= rb.entries@.len(),
            lines@.map_values(|l: String| l@) == seq!["Bundle: "@ + rb.name@] + rb.entries@.take(i as int).map_values(
                |e: RedactedEntry| entry_line(e)),
        decreases rb.entries@.len() - i,
    {
        let e = &rb.entries[i];
        let mut l = String::from_str("  [");
        push_str(&mut l, if e.was_redacted { "*" } else { " " });
        push_str(&mut l, "] ");
        push_str(&mut l, e.key.as_str());
        push_str(&mut l, " = ");
        push_str(&mut l, e.value.as_str());
        let ghost before = lines@;
        let ghost lv = l@;
        lines.push(l);
        assert(lv == entry_line(rb.entries@[i as int]));
        assert(lines@.map_values(|l: String| l@) =~= before.map_values(|l: String| l@).push(lv));
        assert(rb.entries@.take(i + 1).map_values(|e: RedactedEntry| entry_line(e)) =~= rb.entries@.take(i as int).map_values(
            |e: RedactedEntry| entry_line(e)).push(entry_line(rb.entries@[i as int])));
        i = i + 1;
    }
    assert(rb.entries@.take(rb.entries@.len() as int) =~= rb.entries@);
    if rb.redacted_count > 0 {
        let mut l = String::from_str("  (");
        push_str(&mut l, usize_to_string(rb.redacted_count).as_str());
        push_str(&mut l, " value(s) redacted)");
        let ghost before = lines@;
        let ghost lv = l@;
        lines.push(l);
        assert(lines@.map_values(|l: String| l@) =~= before.map_values(|l: String| l@).push(lv));
    }
    assert(lines@.map_values(|l: String| l@) =~= redacted_lines(*rb));
    join_strings(&lines, "\n")
}

/// Law: a key whose lowercase form contains any of `password`, `passwd`,
/// `secret`, `token`, `api_key`, `apikey`, `private_key`, `auth`,
/// `credential`, `cert` or `passphrase` is sensitive, and its value is hidden
/// unless every value is shown.
pub proof fn law_sensitive_words_are_hidden(key: Seq<char>, force: Seq<Seq<char>>)
    requires
        has_substr(lowercase(key), "password"@) || has_substr(lowercase(key), "passwd"@) ||
            has_substr(lowercase(key), "secret"@) || has_substr(lowercase(key), "token"@) ||
            has_substr(lowercase(key), "api_key"@) || has_substr(lowercase(key), "apikey"@) ||
            has_substr(lowercase(key), "private_key"@) || has_substr(lowercase(key), "auth"@) ||
            has_substr(lowercase(key), "credential"@) || has_substr(lowercase(key), "cert"@) ||
            has_substr(lowercase(key), "passphrase"@),
    ensures
        sensitive(key),
        hidden(key, force, false),
        !hidden(key, force, true),
{
    let ps = sensitive_patterns();
    assert(ps[0] == "password"@);
    assert(ps[1] == "passwd"@);
    assert(ps[2] == "secret"@);
    assert(ps[3] == "token"@);
    assert(ps[4] == "api_key"@);
    assert(ps[5] == "apikey"@);
    assert(ps[6] == "private_key"@);
    assert(ps[7] == "auth"@);
    assert(ps[8] == "credential"@);
    assert(ps[9] == "cert"@);
    assert(ps[10] == "passphrase"@);
    if has_substr(lowercase(key), "password"@) { assert(has_substr(lowercase(key), ps[0])); }
    else if has_substr(lowercase(key), "passwd"@) { assert(has_substr(lowercase(key), ps[1])); }
    else if has_substr(lowercase(key), "secret"@) { assert(has_substr(lowercase(key), ps[2])); }
    else if has_substr(lowercase(key), "token"@) { assert(has_substr(lowercase(key), ps[3])); }
    else if has_substr(lowercase(key), "api_key"@) { assert(has_substr(lowercase(key), ps[4])); }
    else if has_substr(lowercase(key), "apikey"@) { assert(has_substr(lowercase(key), ps[5])); }
    else if has_substr(lowercase(key), "private_key"@) { assert(has_substr(lowercase(key), ps[6])); }
    else if has_substr(lowercase(key), "auth"@) { assert(has_substr(lowercase(key), ps[7])); }
    else if has_substr(lowercase(key), "credential"@) { assert(has_substr(lowercase(key), ps[8])); }
    else if has_substr(lowercase(key), "cert"@) { assert(has_substr(lowercase(key), ps[9])); }
    else { assert(has_substr(lowercase(key), ps[10])); }
}

} // verus!
