//! Vault locks: the lock record, its file format, and where the file goes.

use vstd::prelude::*;
use vstd::string::StringExecFns;
use vstd::string::StrSliceExecFns;
use crate::clock::unix_seconds;
use crate::error::VaultError;
use crate::lines::{is_digit, lines, lines_of, parse_u64, parse_u64_exec, split_state, strip_cr, lemma_decimal_digits, lemma_lines_of_joined, lemma_parse_decimal};
use crate::path::{join_path, path_join};
use crate::text::{decimal, has_char, trim_end, trim_start, has_prefix, owned, push_str, strip_char, strip_char_end, strip_char_start, strip_prefix, trim, trim_matches, trimmed, u64_to_string};

verus! {

/// A lock on a vault: its name, when it was locked (seconds since the Unix
/// epoch) and why.
#[derive(Debug, Clone, PartialEq, Eq)]
pub struct LockEntry {
    pub vault_name: String,
    pub locked_at: u64,
    pub reason: Option<String>,
}

/// The `reason` line of a lock file, if there is a reason.
pub open spec fn reason_line(reason: Option<Seq<char>>) -> Seq<char> {
    match reason {
        Some(r) => "reason = \""@ + r + "\"\n"@,
        None => Seq::empty(),
    }
}

/// The text of a lock file.
pub open spec fn lock_text(name: Seq<char>, at: u64, reason: Option<Seq<char>>) -> Seq<char> {
    "vault_name = \""@ + name + "\"\n"@ + "locked_at = "@ + decimal(at as nat) + "\n"@ + reason_line(reason)
}

/// The fields read from the lines of a lock file: for each field the last line
/// that sets it counts; a value is stripped of surrounding `"`, a time that is
/// not a number reads as 0; other lines are ignored.
pub open spec fn lock_fields(ls: Seq<Seq<char>>) -> (Seq<char>, u64, Option<Seq<char>>)
    decreases ls.len(),
{
    if ls.len() == 0 {
        (Seq::empty(), 0, None)
    } else {
        let f = lock_fields(ls.drop_last());
        let l = ls.last();
        if has_prefix(l, "vault_name = "@) {
            (strip_char(l.skip("vault_name = "@.len() as int), '"'), f.1, f.2)
        } else if has_prefix(l, "locked_at = "@) {
            (f.0, match parse_u64(trimmed(l.skip("locked_at = "@.len() as int))) {
                Some(n) => n,
                None => 0,
            }, f.2)
        } else if has_prefix(l, "reason = "@) {
            (f.0, f.1, Some(strip_char(l.skip("reason = "@.len() as int), '"')))
        } else {
            f
        }
    }
}

/// The option of strings seen as their views.
pub open spec fn opt_view(o: Option<String>) -> Option<Seq<char>> {
    match o {
        Some(s) => Some(s@),
        None => None,
    }
}

impl LockEntry {
    /// A lock on `vault_name` taken at time `now`.
    pub fn new_at(vault_name: &str, reason: Option<String>, now: u64) -> (r: LockEntry)
        ensures
            r.vault_name@ == vault_name@,
            r.locked_at == now,
            r.reason == reason,
    {
        LockEntry { vault_name: owned(vault_name), locked_at: now, reason }
    }

    /// A lock on `vault_name` taken now (at time 0 when the clock cannot be read).
    pub fn new(vault_name: &str, reason: Option<String>) -> (r: LockEntry)
        ensures
            r.vault_name@ == vault_name@,
            r.reason == reason,
    {
        let now = match unix_seconds() {
            Ok(t) => t,
            Err(_) => 0,
        };
        LockEntry::new_at(vault_name, reason, now)
    }

    /// The lock file text.
    pub fn to_toml_string(&self) -> (r: String)
        ensures
            r@ == lock_text(self.vault_name@, self.locked_at, opt_view(self.reason)),
    {
        let mut s = String::from_str("vault_name = \"");
        push_str(&mut s, self.vault_name.as_str());
        push_str(&mut s, "\"\n");
        push_str(&mut s, "locked_at = ");
        push_str(&mut s, u64_to_string(self.locked_at).as_str());
        push_str(&mut s, "\n");
        match &self.reason {
            Some(r) => {
                let mut line = String::from_str("reason = \"");
                push_str(&mut line, r.as_str());
                push_str(&mut line, "\"\n");
                push_str(&mut s, line.as_str());
            },
            None => {
                assert(s@ + Seq::<char>::empty() =~= s@);
            },
        }
        s
    }

    /// Reads a lock file. Fails when it names no vault.
    pub fn from_toml_str(content: &str) -> (r: Result<LockEntry, VaultError>)
        ensures
            lock_fields(lines_of(content@)).0.len() == 0 ==> (r matches Err(e) && e is Parse
                && e.msg() == "missing vault_name in lock file"@),
            lock_fields(lines_of(content@)).0.len() > 0 ==> (r matches Ok(e)
                && e.vault_name@ == lock_fields(lines_of(content@)).0
                && e.locked_at == lock_fields(lines_of(content@)).1
                && opt_view(e.reason) == lock_fields(lines_of(content@)).2),
    {
        let ls = lines(content);
        let ghost lv = ls@.map_values(|x: String| x@);
        let mut vault_name = String::new();
        let mut locked_at: u64 = 0;
        let mut reason: Option<String> = None;
        let mut i: usize = 0;
        assert(lv.take(0) =~= Seq::<Seq<char>>::empty());
        while i < ls.len()
            invariant
                lv == ls@.map_values(|x: String| x@),
                i <= lv.len(),
                lock_fields(lv.take(i as int)) == (vault_name@, locked_at, opt_view(reason)),
            decreases lv.len() - i,
        {
            assert(lv.take(i + 1).drop_last() =~= lv.take(i as int));
            assert(lv[i as int] == ls@[i as int]@);
            let line = ls[i].as_str();
            proof {
                reveal_strlit("vault_name = ");
                reveal_strlit("locked_at = ");
                reveal_strlit("reason = ");
            }
            match strip_prefix(line, "vault_name = ") {
                Some(val) => {
                    vault_name = trim_matches(val.as_str(), '"');
                },
                None => match strip_prefix(line, "locked_at = ") {
                    Some(val) => {
                        let t = trim(val.as_str());
                        locked_at = match parse_u64_exec(t.as_str()) {
                            Some(n) => n,
                            None => 0,
                        };
                    },
                    None => match strip_prefix(line, "reason = ") {
                        Some(val) => {
                            reason = Some(trim_matches(val.as_str(), '"'));
                        },
                        None => {},
                    },
                },
            }
            i = i + 1;
        }
        assert(lv.take(lv.len() as int) =~= lv);
        if vault_name.as_str().unicode_len() == 0 {
            return Err(VaultError::Parse(String::from_str("missing vault_name in lock file")));
        }
        Ok(LockEntry { vault_name, locked_at, reason })
    }
}

/// Where the lock file of `vault_name` goes: `<vault_name>.lock` in `base_dir`.
pub fn lock_path(base_dir: &str, vault_name: &str) -> (r: String)
    ensures
        r@ == path_join(base_dir@, vault_name@ + ".lock"@),
{
    let mut file = owned(vault_name);
    push_str(&mut file, ".lock");
    join_path(base_dir, file.as_str())
}

/// A value written between quotes reads back unchanged: it holds no newline,
/// and is empty or neither starts nor ends with `"`.
pub open spec fn quotable(v: Seq<char>) -> bool {
    &&& !has_char(v, '\n')
    &&& (v.len() == 0 || (v[0] != '"' && v.last() != '"'))
}

proof fn lemma_unquote(v: Seq<char>)
    requires
        quotable(v),
    ensures
        strip_char("\""@ + v + "\""@, '"') == v,
{
    reveal_strlit("\"");
    let q = "\""@ + v + "\""@;
    let w = v + "\""@;
    assert(q[0] == '"');
    assert(q.drop_first() =~= w);
    assert(strip_char_start(q, '"') == strip_char_start(w, '"'));
    if v.len() == 0 {
        assert(w =~= "\""@);
        assert(w[0] == '"');
        assert(w.drop_first() =~= Seq::<char>::empty());
        assert(strip_char_start(w, '"') == strip_char_start(Seq::<char>::empty(), '"'));
        assert(strip_char_start(q, '"') == Seq::<char>::empty());
        assert(strip_char_end(Seq::<char>::empty(), '"') == Seq::<char>::empty());
    } else {
        assert(w[0] == v[0]);
        assert(strip_char_start(w, '"') == w);
        assert(w.last() == '"');
        assert(w.drop_last() =~= v);
        assert(strip_char_end(w, '"') == strip_char_end(v, '"'));
        assert(strip_char_end(v, '"') == v);
    }
}

proof fn lemma_line_fields(prev: Seq<Seq<char>>, l: Seq<char>, p: Seq<char>, v: Seq<char>)
    requires
        l == p + v,
        p == "vault_name = "@ || p == "locked_at = "@ || p == "reason = "@,
    ensures
        has_prefix(l, p),
        l.skip(p.len() as int) == v,
{
    assert(l.subrange(0, p.len() as int) =~= p);
    assert(l.skip(p.len() as int) =~= v);
}

proof fn lemma_concat_no_newline(a: Seq<char>, b: Seq<char>)
    requires
        !has_char(a, '\n'),
        !has_char(b, '\n'),
    ensures
        !has_char(a + b, '\n'),
{
    assert forall|i: int| 0 <= i < (a + b).len() implies (a + b)[i] != '\n' by {
        if i < a.len() {
            assert((a + b)[i] == a[i]);
        } else {
            assert((a + b)[i] == b[i - a.len()]);
        }
    }
}

proof fn lemma_decimal_plain(n: u64)
    ensures
        !has_char(decimal(n as nat), '\n'),
        trimmed(decimal(n as nat)) == decimal(n as nat),
        parse_u64(decimal(n as nat)) == Some(n),
        decimal(n as nat).last() != '\r',
{
    let d = decimal(n as nat);
    lemma_decimal_digits(n as nat);
    lemma_parse_decimal(n);
    assert(is_digit(d[0]) && is_digit(d.last()));
    assert(trim_start(d) == d);
    assert(trim_end(d) == d);
}

/// Law: a lock whose name is not empty and whose name and reason are quotable
/// reads back from its lock file text as the same lock.
pub proof fn law_lock_text_roundtrip(name: Seq<char>, at: u64, reason: Option<Seq<char>>)
    requires
        name.len() > 0,
        quotable(name),
        reason matches Some(r) ==> quotable(r),
    ensures
        lock_fields(lines_of(lock_text(name, at, reason))) == (name, at, reason),
{
    reveal_strlit("vault_name = \"");
    reveal_strlit("\"\n");
    reveal_strlit("\"");
    reveal_strlit("\n");
    reveal_strlit("locked_at = ");
    reveal_strlit("vault_name = ");
    reveal_strlit("reason = ");
    reveal_strlit("reason = \"");
    let e = Seq::<char>::empty();
    let q = "\""@;
    let nl = "\n"@;
    let v1 = q + name + q;
    let l1 = "vault_name = "@ + v1;
    let l2 = "locked_at = "@ + decimal(at as nat);
    lemma_decimal_plain(at);
    lemma_unquote(name);
    assert(!has_char("vault_name = "@, '\n'));
    assert(!has_char("locked_at = "@, '\n'));
    assert(!has_char(q, '\n'));
    lemma_concat_no_newline(q, name);
    lemma_concat_no_newline(q + name, q);
    lemma_concat_no_newline("vault_name = "@, v1);
    lemma_concat_no_newline("locked_at = "@, decimal(at as nat));
    assert(split_state(e) == (Seq::<Seq<char>>::empty(), e));
    lemma_lines_of_joined(e, l1);
    let t1 = e + l1 + nl;
    assert(l1.last() == '"');
    assert(strip_cr(l1) == l1);
    assert(l2.last() == decimal(at as nat).last());
    assert(strip_cr(l2) == l2);
    lemma_lines_of_joined(t1, l2);
    let t2 = t1 + l2 + nl;
    let s1 = Seq::<Seq<char>>::empty().push(l1);
    let s2 = s1.push(l2);
    assert(split_state(t2) == (s2, e));
    lemma_line_fields(Seq::empty(), l1, "vault_name = "@, v1);
    lemma_line_fields(s1, l2, "locked_at = "@, decimal(at as nat));
    assert(l2[0] == 'l' && "vault_name = "@[0] == 'v');
    assert(!has_prefix(l2, "vault_name = "@)) by {
        if has_prefix(l2, "vault_name = "@) {
            assert(l2.subrange(0, 13)[0] == l2[0]);
        }
    }
    assert(s1.drop_last() =~= Seq::<Seq<char>>::empty());
    assert(s2.drop_last() =~= s1);
    assert(lock_fields(Seq::<Seq<char>>::empty()) == (e, 0u64, None::<Seq<char>>));
    assert(s1.last() == l1);
    assert(l1.skip("vault_name = "@.len() as int) == v1);
    assert(lock_fields(s1) == (name, 0u64, None::<Seq<char>>));
    assert(lock_fields(s2) == (name, at, None::<Seq<char>>));
    match reason {
        None => {
            assert(lock_text(name, at, reason) =~= t2);
        },
        Some(r) => {
            let v3 = q + r + q;
            let l3 = "reason = "@ + v3;
            assert(!has_char("reason = "@, '\n'));
            lemma_concat_no_newline(q, r);
            lemma_concat_no_newline(q + r, q);
            lemma_concat_no_newline("reason = "@, v3);
            assert(l3.last() == '"');
            assert(strip_cr(l3) == l3);
            lemma_lines_of_joined(t2, l3);
            let s3 = s2.push(l3);
            assert(lock_text(name, at, reason) =~= t2 + l3 + nl);
            lemma_unquote(r);
            lemma_line_fields(s2, l3, "reason = "@, v3);
            assert(l3[0] == 'r');
            assert(!has_prefix(l3, "vault_name = "@)) by {
                if has_prefix(l3, "vault_name = "@) {
                    assert(l3.subrange(0, 13)[0] == l3[0]);
                }
            }
            assert(!has_prefix(l3, "locked_at = "@)) by {
                if has_prefix(l3, "locked_at = "@) {
                    assert(l3.subrange(0, 12)[0] == l3[0]);
                }
            }
            assert(s3.drop_last() =~= s2);
            assert(lock_fields(s3) == (name, at, Some(r)));
        },
    }
}

} // verus!
