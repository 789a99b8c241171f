//! The options of the diff, search, rotate and template commands, and the text
//! those commands report.

use vstd::prelude::*;
use vstd::string::StringExecFns;
use crate::diff::{BundleDiff, DiffEntry};
use crate::error::VaultError;
use crate::search::SearchResult;
use crate::strmap::{StrMap, insert_spec};
use crate::template::{TemplateRenderer, keys_from, render_outcome, render_terminates};
use crate::text::{chars_of, decimal, find_from, find_from_exec, join, join_strings, owned, push_str, repeat,
    repeat_char, sub_string, usize_to_string};

verus! {

/// How a diff is printed.
#[derive(Debug, Clone, Copy, PartialEq, Eq)]
pub enum DiffOutputFormat {
    Text,
    Json,
}

/// The options of the diff command: the two vaults, whether to show values,
/// and the output format.
pub struct DiffCmd {
    pub vault_a: String,
    pub vault_b: String,
    pub show_values: bool,
    pub output_format: DiffOutputFormat,
}

/// The line for one changed key, or `None` for an unchanged one.
pub open spec fn diff_line(key: Seq<char>, e: DiffEntry, show: bool) -> Option<Seq<char>> {
    match e {
        DiffEntry::Added(v) => Some(if show { "  [+] "@ + key + " = "@ + v@ } else { "  [+] "@ + key }),
        DiffEntry::Removed(v) => Some(if show { "  [-] "@ + key + " = "@ + v@ } else { "  [-] "@ + key }),
        DiffEntry::Modified { old, new } => Some(if show {
            "  [~] "@ + key + " : "@ + old@ + " -> "@ + new@
        } else {
            "  [~] "@ + key
        }),
        DiffEntry::Unchanged => None,
    }
}

/// The lines of the changed keys, in order.
pub open spec fn diff_lines(s: Seq<(Seq<char>, DiffEntry)>, show: bool) -> Seq<Seq<char>>
    decreases s.len(),
{
    if s.len() == 0 {
        Seq::empty()
    } else {
        let rest = diff_lines(s.drop_last(), show);
        match diff_line(s.last().0, s.last().1, show) {
            Some(l) => rest.push(l),
            None => rest,
        }
    }
}

impl DiffCmd {
    /// The text report: a header naming both vaults, an empty line, then one
    /// line per changed key.
    pub fn text_lines(&self, diff: &BundleDiff) -> (r: Vec<String>)
        ensures
            r@.map_values(|l: String| l@) == seq!["Diff: '"@ + self.vault_a@ + "' vs '"@ + self.vault_b@ + "'"@,
                Seq::<char>::empty()] + diff_lines(diff.entries@, self.show_values),
    {
        let mut out: Vec<String> = Vec::new();
        let mut h = String::from_str("Diff: '");
        push_str(&mut h, self.vault_a.as_str());
        push_str(&mut h, "' vs '");
        push_str(&mut h, self.vault_b.as_str());
        push_str(&mut h, "'");
        out.push(h);
        out.push(String::new());
        let ghost head = seq!["Diff: '"@ + self.vault_a@ + "' vs '"@ + self.vault_b@ + "'"@, Seq::<char>::empty()];
        assert(out@.map_values(|l: String| l@) =~= head);
        let ghost s = diff.entries@;
        let n = diff.entries.len();
        let mut i: usize = 0;
        assert(s.take(0) =~= Seq::<(Seq<char>, DiffEntry)>::empty());
        assert(head + diff_lines(s.take(0), self.show_values) =~= head);
        while i < n
            invariant
                s == diff.entries@,
                n == s.len(),
                i <= n,
                out@.map_values(|l: String| l@) == head + diff_lines(s.take(i as int), self.show_values),
            decreases n - i,
        {
            assert(s.take(i + 1).drop_last() =~= s.take(i as int));
            let key = diff.entries.key_at(i).as_str();
            let e = diff.entries.value_at(i);
            let line: Option<String> = match e {
                DiffEntry::Added(v) => {
                    let mut l = String::from_str("  [+] ");
                    push_str(&mut l, key);
                    if self.show_values {
                        push_str(&mut l, " = ");
                        push_str(&mut l, v.as_str());
                    }
                    Some(l)
                },
                DiffEntry::Removed(v) => {
                    let mut l = String::from_str("  [-] ");
                    push_str(&mut l, key);
                    if self.show_values {
                        push_str(&mut l, " = ");
                        push_str(&mut l, v.as_str());
                    }
                    Some(l)
                },
                DiffEntry::Modified { old, new } => {
                    let mut l = String::from_str("  [~] ");
                    push_str(&mut l, key);
                    if self.show_values {
                        push_str(&mut l, " : ");
                        push_str(&mut l, old.as_str());
                        push_str(&mut l, " -> ");
                        push_str(&mut l, new.as_str());
                    }
                    Some(l)
                },
                DiffEntry::Unchanged => None,
            };
            match line {
                Some(l) => {
                    let ghost before = out@;
                    let ghost lv = l@;
                    out.push(l);
                    assert(out@.map_values(|l: String| l@) =~= before.map_values(|l: String| l@).push(lv));
                },
                None => {},
            }
            i = i + 1;
        }
        assert(s.take(n as int) =~= s);
        out
    }
}

/// The options of the search command.
pub struct SearchCmd {
    pub vault_path: String,
    pub term: String,
    pub case_sensitive: bool,
    pub keys_only: bool,
}

/// The line for one search result.
pub open spec fn result_line(r: SearchResult) -> Seq<char> {
    let tags = if r.matched_in_key && r.matched_in_value {
        "key, value"@
    } else if r.matched_in_key {
        "key"@
    } else if r.matched_in_value {
        "value"@
    } else {
        Seq::<char>::empty()
    };
    match r.value {
        Some(v) => "  "@ + r.key@ + " = "@ + v@ + " [matched in: "@ + tags + "]"@,
        None => "  "@ + r.key@ + " [matched in: "@ + tags + "]"@,
    }
}

impl SearchCmd {
    /// A search for `term` in the vault at `vault_path`, ignoring case, in keys and values.
    pub fn new(vault_path: &str, term: &str) -> (r: SearchCmd)
        ensures
            r.vault_path@ == vault_path@,
            r.term@ == term@,
            !r.case_sensitive,
            !r.keys_only,
    {
        SearchCmd { vault_path: owned(vault_path), term: owned(term), case_sensitive: false, keys_only: false }
    }

    /// The report: a note when nothing matched; otherwise a count, a rule of
    /// forty dashes and one line per result.
    pub fn report_lines(&self, results: &Vec<SearchResult>) -> (r: Vec<String>)
        ensures
            results@.len() == 0 ==> r@.map_values(|l: String| l@) == seq!["No secrets found matching '"@ + self.term@ + "'"@],
            results@.len() > 0 ==> r@.map_values(|l: String| l@) == seq!["Found "@ + decimal(results@.len()) + " result(s) for '"@
                + self.term@ + "':"@, repeat_char('-', 40)] + results@.map_values(|x: SearchResult| result_line(x)),
    {
        let mut out: Vec<String> = Vec::new();
        if results.len() == 0 {
            let mut l = String::from_str("No secrets found matching '");
            push_str(&mut l, self.term.as_str());
            push_str(&mut l, "'");
            out.push(l);
            assert(out@.map_values(|l: String| l@) =~= seq!["No secrets found matching '"@ + self.term@ + "'"@]);
            return out;
        }
        let mut h = String::from_str("Found ");
        push_str(&mut h, usize_to_string(results.len()).as_str());
        push_str(&mut h, " result(s) for '");
        push_str(&mut h, self.term.as_str());
        push_str(&mut h, "':");
        out.push(h);
        out.push(repeat('-', 40));
        let ghost head = out@.map_values(|l: String| l@);
        let mut i: usize = 0;
        while i < results.len()
            invariant
                i <= results@.len(),
                out@.map_values(|l: String| l@) == head + results@.take(i as int).map_values(|x: SearchResult| result_line(x)),
            decreases results@.len() - i,
        {
            let res = &results[i];
            let tags = if res.matched_in_key && res.matched_in_value {
                "key, value"
            } else if res.matched_in_key {
                "key"
            } else if res.matched_in_value {
                "value"
            } else {
                ""
            };
            let mut l = String::from_str("  ");
            push_str(&mut l, res.key.as_str());
            match &res.value {
                Some(v) => {
                    push_str(&mut l, " = ");
                    push_str(&mut l, v.as_str());
                },
                None => {},
            }
            push_str(&mut l, " [matched in: ");
            push_str(&mut l, tags);
            push_str(&mut l, "]");
            proof {
                reveal_strlit("");
                assert(""@ =~= Seq::<char>::empty());
            }
            let ghost before = out@;
            let ghost lv = l@;
            out.push(l);
            assert(lv == result_line(results@[i as int]));
            assert(out@.map_values(|l: String| l@) =~= before.map_values(|l: String| l@).push(lv));
            assert(results@.take(i + 1).map_values(|x: SearchResult| result_line(x)) =~= results@.take(i as int).map_values(
                |x: SearchResult| result_line(x),
            ).push(result_line(results@[i as int])));
            i = i + 1;
        }
        assert(results@.take(results@.len() as int) =~= results@);
        out
    }
}

/// The options of the rotate command.
pub struct RotateCmdArgs {
    pub vault: String,
    pub old_recipient: String,
    pub new_recipient: String,
    pub dry_run: bool,
    pub audit_path: Option<String>,
}

impl RotateCmdArgs {
    /// The audit log to write: the one given, or `audit.log`.
    pub fn audit_path_or_default(&self) -> (r: String)
        ensures
            match self.audit_path {
                Some(p) => r@ == p@,
                None => r@ == "audit.log"@,
            },
    {
        match &self.audit_path {
            Some(p) => owned(p.as_str()),
            None => String::from_str("audit.log"),
        }
    }

    /// What the command reports after rotating `count` secrets.
    pub fn summary(&self, count: usize) -> (r: String)
        ensures
            self.dry_run ==> r@ == "[dry-run] Would rotate "@ + decimal(count as nat) + " secret(s) in '"@ + self.vault@
                + "' from '"@ + self.old_recipient@ + "' to '"@ + self.new_recipient@ + "'"@,
            !self.dry_run ==> r@ == "Rotated "@ + decimal(count as nat) + " secret(s) in '"@ + self.vault@
                + "' to new recipient '"@ + self.new_recipient@ + "'"@,
    {
        let n = usize_to_string(count);
        if self.dry_run {
            let mut s = String::from_str("[dry-run] Would rotate ");
            push_str(&mut s, n.as_str());
            push_str(&mut s, " secret(s) in '");
            push_str(&mut s, self.vault.as_str());
            push_str(&mut s, "' from '");
            push_str(&mut s, self.old_recipient.as_str());
            push_str(&mut s, "' to '");
            push_str(&mut s, self.new_recipient.as_str());
            push_str(&mut s, "'");
            s
        } else {
            let mut s = String::from_str("Rotated ");
            push_str(&mut s, n.as_str());
            push_str(&mut s, " secret(s) in '");
            push_str(&mut s, self.vault.as_str());
            push_str(&mut s, "' to new recipient '");
            push_str(&mut s, self.new_recipient.as_str());
            push_str(&mut s, "'");
            s
        }
    }
}

/// The options of the template command: the template file, `KEY=VALUE`
/// overrides, an output file and whether only to list the keys.
pub struct TemplateCmdArgs {
    pub template_path: String,
    pub overrides: Vec<(String, String)>,
    pub output_path: Option<String>,
    pub list_keys: bool,
}

/// An override text read as `(key, value)`: split at the first `=`; `Err(true)`
/// when the key is empty, `Err(false)` when there is no `=`.
pub open spec fn override_pair(s: Seq<char>) -> Result<(Seq<char>, Seq<char>), bool> {
    match find_from(s, "="@, 0) {
        Some(i) => if i == 0 {
            Err(true)
        } else {
            Ok((s.take(i), s.skip(i + 1)))
        },
        None => if s.len() == 0 {
            Err(true)
        } else {
            Err(false)
        },
    }
}

/// The message for an override that is not `KEY=VALUE`.
pub open spec fn override_msg(s: Seq<char>, missing_key: bool) -> Seq<char> {
    if missing_key {
        "Invalid override '"@ + s + "': missing key"@
    } else {
        "Invalid override '"@ + s + "': missing '='"@
    }
}

/// Parses `KEY=VALUE` overrides, split at the first `=`; fails on the first
/// one with an empty key or without `=`.
pub fn parse_overrides(raw: &[String]) -> (r: Result<Vec<(String, String)>, VaultError>)
    ensures
        (forall|i: int| 0 <= i < raw@.len() ==> (#[trigger] override_pair(raw@[i]@)) is Ok) ==> (r matches Ok(v)
            && v@.len() == raw@.len() && forall|i: int| 0 <= i < raw@.len() ==> Ok::<(Seq<char>, Seq<char>), bool>((#[trigger] v@[i].0@, v@[i].1@))
            == override_pair(raw@[i]@)),
        forall|j: int| 0 <= j < raw@.len() && (#[trigger] override_pair(raw@[j]@)) is Err && (forall|i: int|
            0 <= i < j ==> (#[trigger] override_pair(raw@[i]@)) is Ok) ==> (r matches Err(e) && e is Generic
            && e.msg() == override_msg(raw@[j]@, override_pair(raw@[j]@)->Err_0)),
{
    proof { reveal_strlit("="); }
    let mut eq: Vec<char> = Vec::new();
    eq.push('=');
    assert(eq@ =~= "="@);
    let mut out: Vec<(String, String)> = Vec::new();
    let mut i: usize = 0;
    while i < raw.len()
        invariant
            eq@ == "="@,
            i <= raw@.len(),
            out@.len() == i,
            forall|a: int| 0 <= a < i ==> Ok::<(Seq<char>, Seq<char>), bool>((#[trigger] out@[a].0@, out@[a].1@)) == override_pair(raw@[a]@),
        decreases raw@.len() - i,
    {
        proof { reveal_strlit("="); }
        let s = raw[i].as_str();
        let cs = chars_of(s);
        let _n = cs.len();
        let parsed: Result<(String, String), bool> = match find_from_exec(&cs, &eq, 0) {
            Some(p) => {
                if p == 0 {
                    Err(true)
                } else {
                    proof { crate::text::lemma_find_from_some(cs@, eq@, 0); }
                    assert(p < cs@.len());
                    let k = sub_string(&cs, 0, p);
                    let v = sub_string(&cs, p + 1, cs.len());
                    assert(k@ =~= s@.take(p as int));
                    assert(v@ =~= s@.skip(p + 1));
                    Ok((k, v))
                }
            },
            None => Err(cs.len() == 0),
        };
        match parsed {
            Ok(kv) => {
                out.push(kv);
            },
            Err(missing_key) => {
                let m = if missing_key {
                    String::from_str("Invalid override '").concat(s).concat("': missing key")
                } else {
                    String::from_str("Invalid override '").concat(s).concat("': missing '='")
                };
                proof {
                    assert forall|j: int| 0 <= j < raw@.len() && (#[trigger] override_pair(raw@[j]@)) is Err
                        && (forall|a: int| 0 <= a < j ==> (#[trigger] override_pair(raw@[a]@)) is Ok) implies j == i by {
                        if j < i {
                            assert(Ok::<(Seq<char>, Seq<char>), bool>((out@[j].0@, out@[j].1@)) == override_pair(raw@[j]@));
                        } else if j > i {
                            assert(override_pair(raw@[i as int]@) is Ok);
                        }
                    }
                }
                return Err(VaultError::Generic(m));
            },
        }
        i = i + 1;
    }
    assert forall|j: int| 0 <= j < raw@.len() implies (#[trigger] override_pair(raw@[j]@)) is Ok by {
        assert(Ok::<(Seq<char>, Seq<char>), bool>((out@[j].0@, out@[j].1@)) == override_pair(raw@[j]@));
    }
    Ok(out)
}

/// The secrets with the overrides stored in turn (a later one wins).
pub open spec fn with_overrides(s: Seq<(Seq<char>, Seq<char>)>, o: Seq<(Seq<char>, Seq<char>)>) -> Seq<(Seq<char>, Seq<char>)>
    decreases o.len(),
{
    if o.len() == 0 {
        s
    } else {
        let rest = with_overrides(s, o.drop_last());
        insert_spec(rest, o.last().0, o.last().1)
    }
}

/// The overrides seen as pairs of strings.
pub open spec fn pair_views(v: Seq<(String, String)>) -> Seq<(Seq<char>, Seq<char>)> {
    v.map_values(|p: (String, String)| (p.0@, p.1@))
}

impl TemplateCmdArgs {
    /// What the template command produces from the template's text and the
    /// bundle's secrets: the template's keys, one per line, when only listing
    /// keys; otherwise the template rendered with the `{{{ }}}` delimiters
    /// from the secrets with the overrides applied.
    pub fn output(&self, template: &str, secrets: &StrMap<String>) -> (r: Result<String, VaultError>)
        requires
            !self.list_keys ==> render_terminates(template@, "{{{"@, "}}}"@, with_overrides(secrets@,
                pair_views(self.overrides@))),
        ensures
            self.list_keys ==> (r matches Ok(t) && t@ == join(keys_from(template@, "{{{"@, "}}}"@, 0), "\n"@)),
            !self.list_keys ==> match render_outcome(template@, "{{{"@, "}}}"@, with_overrides(secrets@,
                pair_views(self.overrides@))) {
                Ok(out) => r matches Ok(t) && t@ == out,
                Err(key) => r matches Err(e) && e is Generic && e.msg() == "Template key not found in secrets: '"@
                    + key + "'"@,
            },
    {
        let renderer = TemplateRenderer::default();
        proof {
            reveal_strlit("{{{");
            reveal_strlit("}}}");
        }
        if self.list_keys {
            let keys = renderer.extract_keys(template);
            return Ok(join_strings(&keys, "\n"));
        }
        let mut merged = secrets.copy();
        let ghost ov = pair_views(self.overrides@);
        let mut i: usize = 0;
        assert(ov.take(0) =~= Seq::<(Seq<char>, Seq<char>)>::empty());
        while i < self.overrides.len()
            invariant
                ov == pair_views(self.overrides@),
                i <= ov.len(),
                merged@ == with_overrides(secrets@, ov.take(i as int)),
            decreases ov.len() - i,
        {
            assert(ov.take(i + 1).drop_last() =~= ov.take(i as int));
            let (k, v) = &self.overrides[i];
            merged.insert(owned(k.as_str()), owned(v.as_str()));
            i = i + 1;
        }
        assert(ov.take(ov.len() as int) =~= ov);
        renderer.render(template, &merged)
    }
}

} // verus!
