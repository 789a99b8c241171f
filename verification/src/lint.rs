//! Lint checks for secret bundles: key naming, case-insensitive duplicates,
//! empty or placeholder values.

use vstd::prelude::*;
use vstd::string::StringExecFns;
use crate::bundle::Bundle;
use crate::fmt::str_len;
use crate::strmap::unique_keys;
use crate::text::{alphanumeric, chars_of, is_alphanumeric, is_blank, blank, lowercase, owned, str_eq, to_lowercase};

verus! {

/// The severity of a diagnostic.
#[derive(Debug, Clone, Copy, PartialEq, Eq)]
pub enum LintLevel {
    Warning,
    Error,
}

/// One finding of the linter about a key.
pub struct LintDiagnostic {
    pub level: LintLevel,
    pub key: String,
    pub message: String,
}

impl View for LintDiagnostic {
    type V = (LintLevel, Seq<char>, Seq<char>);

    open spec fn view(&self) -> (LintLevel, Seq<char>, Seq<char>) {
        (self.level, self.key@, self.message@)
    }
}

impl LintDiagnostic {
    /// A warning about `key`.
    pub fn warning(key: &str, message: &str) -> (r: LintDiagnostic)
        ensures
            r@ == (LintLevel::Warning, key@, message@),
    {
        LintDiagnostic { level: LintLevel::Warning, key: owned(key), message: owned(message) }
    }

    /// An error about `key`.
    pub fn error(key: &str, message: &str) -> (r: LintDiagnostic)
        ensures
            r@ == (LintLevel::Error, key@, message@),
    {
        LintDiagnostic { level: LintLevel::Error, key: owned(key), message: owned(message) }
    }

    /// Whether this is an error (not a warning).
    pub fn is_error(&self) -> (r: bool)
        ensures
            r == (self.level == LintLevel::Error),
    {
        match self.level {
            LintLevel::Error => true,
            LintLevel::Warning => false,
        }
    }
}

/// Keys may hold only alphanumeric characters, `_` and `-`.
pub open spec fn valid_key_chars(k: Seq<char>) -> bool {
    forall|i: int| 0 <= i < k.len() ==> alphanumeric(#[trigger] k[i]) || k[i] == '_' || k[i] == '-'
}

/// A value that reads as a placeholder, ignoring case.
pub open spec fn is_placeholder(v: Seq<char>) -> bool {
    let l = lowercase(v);
    l == "todo"@ || l == "fixme"@ || l == "changeme"@ || l == "placeholder"@
}

/// Some earlier key equals `k` ignoring case.
pub open spec fn seen_before(earlier: Seq<(Seq<char>, Seq<char>)>, k: Seq<char>) -> bool {
    exists|j: int| 0 <= j < earlier.len() && lowercase(#[trigger] earlier[j].0) == lowercase(k)
}

/// The diagnostics for one entry `(k, v)`, given the entries before it.
pub open spec fn entry_diags(earlier: Seq<(Seq<char>, Seq<char>)>, k: Seq<char>, v: Seq<char>) -> Seq<(LintLevel, Seq<char>, Seq<char>)> {
    (if seen_before(earlier, k) {
        seq![(LintLevel::Error, k, "Duplicate key detected (case-insensitive)"@)]
    } else {
        Seq::empty()
    }) + (if !valid_key_chars(k) {
        seq![(LintLevel::Error, k, "Key contains invalid characters; use only [a-zA-Z0-9_-]"@)]
    } else {
        Seq::empty()
    }) + (if is_placeholder(v) {
        seq![(LintLevel::Warning, k, "Value looks like a placeholder: '"@ + v + "'"@)]
    } else {
        Seq::empty()
    }) + (if is_blank(v) {
        seq![(LintLevel::Warning, k, "Value is empty"@)]
    } else {
        Seq::empty()
    }) + (if str_len(k) > 64 {
        seq![(LintLevel::Warning, k, "Key name exceeds 64 characters"@)]
    } else {
        Seq::empty()
    })
}

/// The diagnostics for all entries, in order.
pub open spec fn lint_spec(s: Seq<(Seq<char>, Seq<char>)>) -> Seq<(LintLevel, Seq<char>, Seq<char>)>
    decreases s.len(),
{
    if s.len() == 0 {
        Seq::empty()
    } else {
        lint_spec(s.drop_last()) + entry_diags(s.drop_last(), s.last().0, s.last().1)
    }
}

fn key_chars_valid(k: &str) -> (r: bool)
    ensures
        r == valid_key_chars(k@),
{
    let cs = chars_of(k);
    let mut i: usize = 0;
    while i < cs.len()
        invariant
            cs@ == k@,
            i <= cs@.len(),
            forall|j: int| 0 <= j < i ==> alphanumeric(#[trigger] cs@[j]) || cs@[j] == '_' || cs@[j] == '-',
        decreases cs@.len() - i,
    {
        let c = cs[i];
        if !(is_alphanumeric(c) || c == '_' || c == '-') {
            return false;
        }
        i = i + 1;
    }
    true
}

fn placeholder(v: &str) -> (r: bool)
    ensures
        r == is_placeholder(v@),
{
    let l = to_lowercase(v);
    str_eq(l.as_str(), "todo") || str_eq(l.as_str(), "fixme") || str_eq(l.as_str(), "changeme")
        || str_eq(l.as_str(), "placeholder")
}

fn push_diag(diags: &mut Vec<LintDiagnostic>, d: LintDiagnostic)
    ensures
        final(diags)@.map_values(|x: LintDiagnostic| x@) == old(diags)@.map_values(|x: LintDiagnostic| x@).push(d@),
{
    let ghost before = diags@;
    diags.push(d);
    assert(diags@.map_values(|x: LintDiagnostic| x@) =~= before.map_values(|x: LintDiagnostic| x@).push(d@));
}

/// Checks every secret of the bundle, in order, and reports: a key equal to an
/// earlier key ignoring case (error), a key with characters other than
/// alphanumerics, `_` and `-` (error), a placeholder value such as `TODO`
/// (warning), a blank value (warning), a key longer than 64 bytes (warning).
pub fn lint_bundle(bundle: &Bundle) -> (r: Vec<LintDiagnostic>)
    ensures
        r@.map_values(|d: LintDiagnostic| d@) == lint_spec(bundle.secrets@),
{
    let ghost s = bundle.secrets@;
    let mut diags: Vec<LintDiagnostic> = Vec::new();
    let mut seen: Vec<String> = Vec::new();
    let n = bundle.secrets.len();
    let mut i: usize = 0;
    assert(s.take(0) =~= Seq::<(Seq<char>, Seq<char>)>::empty());
    assert(diags@.map_values(|d: LintDiagnostic| d@) =~= Seq::<(LintLevel, Seq<char>, Seq<char>)>::empty());
    while i < n
        invariant
            s == bundle.secrets@,
            n == s.len(),
            i <= n,
            seen@.len() == i,
            forall|j: int| 0 <= j < i ==> #[trigger] seen@[j]@ == lowercase(s[j].0),
            diags@.map_values(|d: LintDiagnostic| d@) == lint_spec(s.take(i as int)),
        decreases n - i,
    {
        let key = bundle.secrets.key_at(i);
        let value = bundle.secrets.value_at(i);
        let ghost earlier = s.take(i as int);
        assert(s.take(i + 1).drop_last() =~= earlier);
        let ghost start = diags@.map_values(|d: LintDiagnostic| d@);
        let lower = to_lowercase(key.as_str());
        let mut dup = false;
        let mut j: usize = 0;
        while j < seen.len()
            invariant
                i == seen@.len(),
                j <= i,
                i < s.len(),
                earlier == s.take(i as int),
                forall|k: int| 0 <= k < i ==> #[trigger] seen@[k]@ == lowercase(s[k].0),
                lower@ == lowercase(s[i as int].0),
                dup == exists|k: int| 0 <= k < j && lowercase(#[trigger] earlier[k].0) == lowercase(s[i as int].0),
            decreases i - j,
        {
            assert(earlier[j as int] == s[j as int]);
            if seen[j] == lower {
                dup = true;
            }
            j = j + 1;
        }
        let ghost d0 = diags@.map_values(|d: LintDiagnostic| d@);
        if dup {
            push_diag(&mut diags, LintDiagnostic::error(key.as_str(), "Duplicate key detected (case-insensitive)"));
        }
        let ghost d1 = diags@.map_values(|d: LintDiagnostic| d@);
        if !key_chars_valid(key.as_str()) {
            push_diag(&mut diags, LintDiagnostic::error(key.as_str(), "Key contains invalid characters; use only [a-zA-Z0-9_-]"));
        }
        let ghost d2 = diags@.map_values(|d: LintDiagnostic| d@);
        if placeholder(value.as_str()) {
            let m = String::from_str("Value looks like a placeholder: '").concat(value.as_str()).concat("'");
            push_diag(&mut diags, LintDiagnostic::warning(key.as_str(), m.as_str()));
        }
        let ghost d3 = diags@.map_values(|d: LintDiagnostic| d@);
        if blank(value.as_str()) {
            push_diag(&mut diags, LintDiagnostic::warning(key.as_str(), "Value is empty"));
        }
        let ghost d4 = diags@.map_values(|d: LintDiagnostic| d@);
        if key.as_str().len() > 64 {
            push_diag(&mut diags, LintDiagnostic::warning(key.as_str(), "Key name exceeds 64 characters"));
        }
        proof {
            let k = s[i as int].0;
            let v = s[i as int].1;
            assert(s.take(i + 1).last() == s[i as int]);
            let ed = entry_diags(earlier, k, v);
            assert(dup == seen_before(earlier, k));
            assert(d1 == d0 + (if seen_before(earlier, k) {
                seq![(LintLevel::Error, k, "Duplicate key detected (case-insensitive)"@)]
            } else {
                Seq::empty()
            }));
            assert(d2 == d1 + (if !valid_key_chars(k) {
                seq![(LintLevel::Error, k, "Key contains invalid characters; use only [a-zA-Z0-9_-]"@)]
            } else {
                Seq::empty()
            }));
            assert(d3 == d2 + (if is_placeholder(v) {
                seq![(LintLevel::Warning, k, "Value looks like a placeholder: '"@ + v + "'"@)]
            } else {
                Seq::empty()
            }));
            assert(d4 == d3 + (if is_blank(v) {
                seq![(LintLevel::Warning, k, "Value is empty"@)]
            } else {
                Seq::empty()
            }));
            assert(diags@.map_values(|d: LintDiagnostic| d@) =~= start + ed);
        }
        let ghost newl = lower@;
        seen.push(lower);
        i = i + 1;
    }
    assert(s.take(n as int) =~= s);
    diags
}

/// Whether any diagnostic is an error.
pub fn has_errors(diags: &[LintDiagnostic]) -> (r: bool)
    ensures
        r == exists|i: int| 0 <= i < diags@.len() && #[trigger] diags@[i].level == LintLevel::Error,
{
    let mut i: usize = 0;
    while i < diags.len()
        invariant
            i <= diags@.len(),
            forall|j: int| 0 <= j < i ==> #[trigger] diags@[j].level != LintLevel::Error,
        decreases diags@.len() - i,
    {
        if diags[i].is_error() {
            return true;
        }
        i = i + 1;
    }
    false
}

/// The placeholder warning for a key and its value.
spec fn placeholder_diag(k: Seq<char>, v: Seq<char>) -> (LintLevel, Seq<char>, Seq<char>) {
    (LintLevel::Warning, k, "Value looks like a placeholder: '"@ + v + "'"@)
}

/// An entry's diagnostics hold its placeholder warning once when its value is
/// a placeholder and not otherwise; another key's warning they never hold.
proof fn lemma_entry_placeholder_count(e: Seq<(Seq<char>, Seq<char>)>, k2: Seq<char>, v2: Seq<char>, k: Seq<char>, v: Seq<char>)
    requires
        k2 != k || v2 == v,
    ensures
        entry_diags(e, k2, v2).to_multiset().count(placeholder_diag(k, v)) == if k2 == k && is_placeholder(v) {
            1nat
        } else {
            0nat
        },
{
    broadcast use vstd::seq_lib::group_to_multiset_ensures;
    broadcast use vstd::seq_lib::lemma_multiset_commutative;
    broadcast use vstd::multiset::group_multiset_axioms;

    reveal_strlit("Value looks like a placeholder: '");
    reveal_strlit("Value is empty");
    reveal_strlit("Key name exceeds 64 characters");
    let x = placeholder_diag(k, v);
    let m = "Value looks like a placeholder: '"@ + v + "'"@;
    assert(m[6] == 'l');
    assert("Value is empty"@[6] == 'i');
    assert(m != "Value is empty"@);
    assert(m[0] == 'V');
    assert("Key name exceeds 64 characters"@[0] == 'K');
    assert(m != "Key name exceeds 64 characters"@);
    let d1: Seq<(LintLevel, Seq<char>, Seq<char>)> = if seen_before(e, k2) {
        seq![(LintLevel::Error, k2, "Duplicate key detected (case-insensitive)"@)]
    } else {
        Seq::empty()
    };
    let d2: Seq<(LintLevel, Seq<char>, Seq<char>)> = if !valid_key_chars(k2) {
        seq![(LintLevel::Error, k2, "Key contains invalid characters; use only [a-zA-Z0-9_-]"@)]
    } else {
        Seq::empty()
    };
    let d3: Seq<(LintLevel, Seq<char>, Seq<char>)> = if is_placeholder(v2) {
        seq![(LintLevel::Warning, k2, "Value looks like a placeholder: '"@ + v2 + "'"@)]
    } else {
        Seq::empty()
    };
    let d4: Seq<(LintLevel, Seq<char>, Seq<char>)> = if is_blank(v2) {
        seq![(LintLevel::Warning, k2, "Value is empty"@)]
    } else {
        Seq::empty()
    };
    let d5: Seq<(LintLevel, Seq<char>, Seq<char>)> = if str_len(k2) > 64 {
        seq![(LintLevel::Warning, k2, "Key name exceeds 64 characters"@)]
    } else {
        Seq::empty()
    };
    assert(entry_diags(e, k2, v2) == d1 + d2 + d3 + d4 + d5);
    assert(d1.to_multiset().count(x) == 0) by {
        if seen_before(e, k2) {
            assert(d1 =~= Seq::<(LintLevel, Seq<char>, Seq<char>)>::empty().push(d1[0]));
        }
    }
    assert(d2.to_multiset().count(x) == 0) by {
        if !valid_key_chars(k2) {
            assert(d2 =~= Seq::<(LintLevel, Seq<char>, Seq<char>)>::empty().push(d2[0]));
        }
    }
    assert(d4.to_multiset().count(x) == 0) by {
        if is_blank(v2) {
            assert(d4 =~= Seq::<(LintLevel, Seq<char>, Seq<char>)>::empty().push(d4[0]));
        }
    }
    assert(d5.to_multiset().count(x) == 0) by {
        if str_len(k2) > 64 {
            assert(d5 =~= Seq::<(LintLevel, Seq<char>, Seq<char>)>::empty().push(d5[0]));
        }
    }
    assert(d3.to_multiset().count(x) == if k2 == k && is_placeholder(v) { 1nat } else { 0nat }) by {
        if is_placeholder(v2) {
            assert(d3 =~= Seq::<(LintLevel, Seq<char>, Seq<char>)>::empty().push(d3[0]));
        }
    }
}

proof fn lemma_lint_placeholder_count(s: Seq<(Seq<char>, Seq<char>)>, i: int, n: int)
    requires
        unique_keys(s),
        0 <= i < s.len(),
        0 <= n <= s.len(),
    ensures
        lint_spec(s.take(n)).to_multiset().count(placeholder_diag(s[i].0, s[i].1)) == if i < n && is_placeholder(
            s[i].1,
        ) {
            1nat
        } else {
            0nat
        },
    decreases n,
{
    broadcast use vstd::seq_lib::group_to_multiset_ensures;
    broadcast use vstd::seq_lib::lemma_multiset_commutative;
    broadcast use vstd::multiset::group_multiset_axioms;

    let t = s.take(n);
    if n == 0 {
        assert(t =~= Seq::<(Seq<char>, Seq<char>)>::empty());
        assert(lint_spec(t) =~= Seq::<(LintLevel, Seq<char>, Seq<char>)>::empty());
    } else {
        lemma_lint_placeholder_count(s, i, n - 1);
        assert(t.drop_last() =~= s.take(n - 1));
        assert(t.last() == s[n - 1]);
        if n - 1 != i {
            assert(s[n - 1].0 != s[i].0);
        }
        lemma_entry_placeholder_count(s.take(n - 1), s[n - 1].0, s[n - 1].1, s[i].0, s[i].1);
        assert(lint_spec(t) == lint_spec(s.take(n - 1)) + entry_diags(s.take(n - 1), s[n - 1].0, s[n - 1].1));
    }
}

/// Law: in a bundle (keys unique), a value equal to `todo`, `fixme`,
/// `changeme` or `placeholder`, ignoring case, gets exactly one warning
/// `Value looks like a placeholder: '<value>'` for its key; any other value
/// gets none.
pub proof fn law_placeholder_warned_once(s: Seq<(Seq<char>, Seq<char>)>, i: int)
    requires
        unique_keys(s),
        0 <= i < s.len(),
    ensures
        ({
            let w = (LintLevel::Warning, s[i].0, "Value looks like a placeholder: '"@ + s[i].1 + "'"@);
            let l = lowercase(s[i].1);
            &&& (l == "todo"@ || l == "fixme"@ || l == "changeme"@ || l == "placeholder"@) ==> lint_spec(
                s,
            ).to_multiset().count(w) == 1
            &&& !(l == "todo"@ || l == "fixme"@ || l == "changeme"@ || l == "placeholder"@) ==> lint_spec(
                s,
            ).to_multiset().count(w) == 0
        }),
{
    lemma_lint_placeholder_count(s, i, s.len() as int);
    assert(s.take(s.len() as int) =~= s);
}

} // verus!
