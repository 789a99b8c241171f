//! Secrets as environment variables: shell `export` lines or dotenv lines.

use vstd::prelude::*;
use vstd::string::StringExecFns;
use crate::bundle::Bundle;
use crate::strmap::{StrMap, insert_spec, keys_of, unique_keys, lemma_insert_unique};
use crate::text::{chars_of, is_whitespace, is_ws, lemma_replace_concat, owned, push_char, push_str, replace_char, replace_char_exec, sorted_order, to_uppercase, uppercase};

verus! {

/// The syntax of the lines.
#[derive(Debug, Clone, Copy, PartialEq, Eq)]
pub enum EnvFormat {
    /// `export KEY=VALUE`
    Shell,
    /// `KEY=VALUE`
    Dotenv,
}

impl EnvFormat {
    /// The default syntax: shell.
    pub fn default() -> (r: EnvFormat)
        ensures
            r == EnvFormat::Shell,
    {
        EnvFormat::Shell
    }
}

/// The variable name for a key: uppercase, with `-` and `.` turned into `_`.
pub open spec fn env_key(k: Seq<char>) -> Seq<char> {
    replace_char(replace_char(uppercase(k), '-', "_"@), '.', "_"@)
}

/// A character that makes a value need quoting in a shell.
pub open spec fn shell_special(c: char) -> bool {
    is_ws(c) || c == '"' || c == '\'' || c == '$' || c == '`' || c == '\\'
}

/// The value quoted for a shell when needed: in single quotes, each `'`
/// written as `'\''`.
pub open spec fn shell_escaped(v: Seq<char>) -> Seq<char> {
    if exists|i: int| 0 <= i < v.len() && shell_special(#[trigger] v[i]) {
        "'"@ + replace_char(v, '\'', "'\\''"@) + "'"@
    } else {
        v
    }
}

/// The line for one secret.
pub open spec fn env_line(format: EnvFormat, k: Seq<char>, v: Seq<char>) -> Seq<char> {
    match format {
        EnvFormat::Shell => "export "@ + env_key(k) + "="@ + shell_escaped(v),
        EnvFormat::Dotenv => env_key(k) + "="@ + v,
    }
}

fn env_key_exec(k: &str) -> (r: String)
    ensures
        r@ == env_key(k@),
{
    let u = to_uppercase(k);
    let a = replace_char_exec(u.as_str(), '-', "_");
    replace_char_exec(a.as_str(), '.', "_")
}

/// Quotes `value` for a shell when it holds whitespace or any of `"'$`\`.
pub fn shell_escape(value: &str) -> (r: String)
    ensures
        r@ == shell_escaped(value@),
        shell_word(r@) == Some(value@),
{
    proof { law_shell_escape_reads_back(value@); }
    let cs = chars_of(value);
    let mut i: usize = 0;
    let mut special = false;
    while i < cs.len()
        invariant
            cs@ == value@,
            i <= cs@.len(),
            special == exists|j: int| 0 <= j < i && shell_special(#[trigger] cs@[j]),
        decreases cs@.len() - i,
    {
        let c = cs[i];
        if is_whitespace(c) || c == '"' || c == '\'' || c == '$' || c == '`' || c == '\\' {
            special = true;
        }
        i = i + 1;
    }
    if special {
        let mut s = String::from_str("'");
        let inner = replace_char_exec(value, '\'', "'\\''");
        push_str(&mut s, inner.as_str());
        push_str(&mut s, "'");
        s
    } else {
        owned(value)
    }
}

/// One line per secret, sorted by key.
pub fn render_env(bundle: &Bundle, format: &EnvFormat) -> (r: Vec<String>)
    ensures
        exists|order: Seq<usize>| #![auto] sorted_order(keys_of(bundle.secrets@), order)
            && r@.len() == order.len()
            && forall|i: int| 0 <= i < order.len() ==> (#[trigger] r@[i])@ == env_line(*format,
                bundle.secrets@[order[i] as int].0, bundle.secrets@[order[i] as int].1),
{
    let ghost s = bundle.secrets@;
    let order = bundle.secrets.sorted_indices();
    let mut lines: Vec<String> = Vec::new();
    let mut j: usize = 0;
    while j < order.len()
        invariant
            s == bundle.secrets@,
            sorted_order(keys_of(s), order@),
            j <= order@.len(),
            lines@.len() == j,
            forall|i: int| 0 <= i < j ==> (#[trigger] lines@[i])@ == env_line(*format, s[order@[i] as int].0,
                s[order@[i] as int].1),
        decreases order@.len() - j,
    {
        let p = order[j];
        assert((p as int) < keys_of(s).len());
        let key = bundle.secrets.key_at(p);
        let value = bundle.secrets.value_at(p);
        let name = env_key_exec(key.as_str());
        let line = match format {
            EnvFormat::Shell => {
                let mut l = String::from_str("export ");
                push_str(&mut l, name.as_str());
                push_str(&mut l, "=");
                push_str(&mut l, shell_escape(value.as_str()).as_str());
                l
            },
            EnvFormat::Dotenv => {
                let mut l = name;
                push_str(&mut l, "=");
                push_str(&mut l, value.as_str());
                l
            },
        };
        lines.push(line);
        j = j + 1;
    }
    lines
}

/// The variables after setting each secret in order (a later secret whose
/// name maps to the same variable wins).
pub open spec fn env_map_spec(s: Seq<(Seq<char>, Seq<char>)>) -> Seq<(Seq<char>, Seq<char>)>
    decreases s.len(),
{
    if s.len() == 0 {
        Seq::empty()
    } else {
        insert_spec(env_map_spec(s.drop_last()), env_key(s.last().0), s.last().1)
    }
}

/// The secrets as a map from variable name to value.
pub fn to_env_map(bundle: &Bundle) -> (r: StrMap<String>)
    ensures
        r@ == env_map_spec(bundle.secrets@),
{
    let ghost s = bundle.secrets@;
    let mut m: StrMap<String> = StrMap::new();
    let n = bundle.secrets.len();
    let mut i: usize = 0;
    assert(s.take(0) =~= Seq::<(Seq<char>, Seq<char>)>::empty());
    while i < n
        invariant
            s == bundle.secrets@,
            n == s.len(),
            i <= n,
            m@ == env_map_spec(s.take(i as int)),
        decreases n - i,
    {
        assert(s.take(i + 1).drop_last() =~= s.take(i as int));
        let key = env_key_exec(bundle.secrets.key_at(i).as_str());
        m.insert(key, bundle.secrets.value_at(i).clone());
        i = i + 1;
    }
    assert(s.take(n as int) =~= s);
    m
}

/// The text `p` put in front of the text that `r` holds, if any.
pub open spec fn prefixed_opt(p: Seq<char>, r: Option<Seq<char>>) -> Option<Seq<char>> {
    match r {
        Some(t) => Some(p + t),
        None => None,
    }
}

/// How a POSIX shell reads `s` as one word when it removes quotes and expands
/// nothing: text between single quotes is taken as it is, a backslash outside
/// quotes takes the next character as it is, and any other character stands
/// for itself. `None` when `s` is not such a word: an unquoted whitespace,
/// `"`, `$` or backquote, a trailing backslash, or an unclosed single quote.
pub open spec fn shell_word(s: Seq<char>) -> Option<Seq<char>>
    decreases s.len(),
{
    if s.len() == 0 {
        Some(Seq::empty())
    } else if s[0] == '\'' {
        single_quoted(s.skip(1))
    } else if s[0] == '\\' {
        if s.len() < 2 {
            None
        } else {
            prefixed_opt(seq![s[1]], shell_word(s.skip(2)))
        }
    } else if is_ws(s[0]) || s[0] == '"' || s[0] == '$' || s[0] == '`' {
        None
    } else {
        prefixed_opt(seq![s[0]], shell_word(s.skip(1)))
    }
}

/// The rest of a word that is inside single quotes: taken as it is up to the
/// closing quote, then read on as a word.
pub open spec fn single_quoted(s: Seq<char>) -> Option<Seq<char>>
    decreases s.len(),
{
    if s.len() == 0 {
        None
    } else if s[0] == '\'' {
        shell_word(s.skip(1))
    } else {
        prefixed_opt(seq![s[0]], single_quoted(s.skip(1)))
    }
}

proof fn lemma_plain_word(v: Seq<char>, t: Seq<char>)
    requires
        forall|i: int| 0 <= i < v.len() ==> !shell_special(#[trigger] v[i]),
    ensures
        shell_word(v + t) == prefixed_opt(v, shell_word(t)),
    decreases v.len(),
{
    if v.len() == 0 {
        assert(v + t =~= t);
        match shell_word(t) {
            Some(x) => { assert(v + x =~= x); },
            None => {},
        }
    } else {
        let w = v.skip(1);
        assert(!shell_special(v[0]));
        assert((v + t)[0] == v[0]);
        assert((v + t).skip(1) =~= w + t);
        assert forall|i: int| 0 <= i < w.len() implies !shell_special(#[trigger] w[i]) by {
            assert(w[i] == v[i + 1]);
        }
        lemma_plain_word(w, t);
        match shell_word(t) {
            Some(x) => { assert(seq![v[0]] + (w + x) =~= v + x); },
            None => {},
        }
    }
}

proof fn lemma_quoted_word(v: Seq<char>, t: Seq<char>)
    ensures
        single_quoted(replace_char(v, '\'', "'\\''"@) + "'"@ + t) == prefixed_opt(v, shell_word(t)),
    decreases v.len(),
{
    reveal_strlit("'");
    reveal_strlit("'\\''");
    let q = "'"@;
    let rep = "'\\''"@;
    if v.len() == 0 {
        assert(replace_char(v, '\'', rep) =~= Seq::<char>::empty());
        let s = replace_char(v, '\'', rep) + q + t;
        assert(s =~= q + t);
        assert(s.skip(1) =~= t);
        match shell_word(t) {
            Some(x) => { assert(v + x =~= x); },
            None => {},
        }
    } else {
        let c = v[0];
        let w = v.skip(1);
        assert(v =~= seq![c] + w);
        lemma_replace_concat(seq![c], w, '\'', rep);
        assert(seq![c].drop_last() =~= Seq::<char>::empty());
        assert(replace_char(Seq::<char>::empty(), '\'', rep) =~= Seq::<char>::empty());
        let rw = replace_char(w, '\'', rep);
        lemma_quoted_word(w, t);
        let s = replace_char(v, '\'', rep) + q + t;
        if c == '\'' {
            assert(replace_char(seq![c], '\'', rep) =~= rep);
            assert(s =~= rep + rw + q + t);
            assert(s[0] == '\'');
            let s1 = s.skip(1);
            assert(s1[0] == '\\' && s1[1] == '\'');
            assert(s1.skip(2) =~= q + rw + q + t);
            let s3 = s1.skip(2);
            assert(s3[0] == '\'');
            assert(s3.skip(1) =~= rw + q + t);
            assert(single_quoted(s3.skip(1)) == prefixed_opt(w, shell_word(t)));
            assert(shell_word(s3) == single_quoted(s3.skip(1)));
            assert(shell_word(s1) == prefixed_opt(seq![s1[1]], shell_word(s3)));
            assert(single_quoted(s) == shell_word(s1));
        } else {
            assert(replace_char(seq![c], '\'', rep) =~= seq![c]);
            assert(s =~= seq![c] + (rw + q + t));
            assert(s[0] == c);
            assert(s.skip(1) =~= rw + q + t);
            assert(single_quoted(s) == prefixed_opt(seq![c], single_quoted(s.skip(1))));
        }
        match shell_word(t) {
            Some(x) => { assert(seq![c] + (w + x) =~= v + x); },
            None => {},
        }
    }
}

/// Law: a shell reads back every escaped value as the value itself: whatever
/// `v` holds, `shell_escape(v)` is one word that reads as `v`.
pub proof fn law_shell_escape_reads_back(v: Seq<char>)
    ensures
        shell_word(shell_escaped(v)) == Some(v),
{
    reveal_strlit("'");
    if exists|i: int| 0 <= i < v.len() && shell_special(#[trigger] v[i]) {
        let rep = "'\\''"@;
        let s = "'"@ + replace_char(v, '\'', rep) + "'"@;
        assert(s[0] == '\'');
        assert(s.skip(1) =~= replace_char(v, '\'', rep) + "'"@ + Seq::<char>::empty());
        lemma_quoted_word(v, Seq::empty());
        assert(v + Seq::<char>::empty() =~= v);
    } else {
        lemma_plain_word(v, Seq::empty());
        assert(v + Seq::<char>::empty() =~= v);
    }
}

} // verus!
