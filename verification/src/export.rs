//! Exporting a bundle's secrets as JSON, dotenv or TOML text.

use vstd::prelude::*;
use vstd::string::StringExecFns;
use std::collections::BTreeMap;
use crate::bundle::Bundle;
use crate::error::VaultError;
use crate::strmap::StrMap;
use crate::text::{
    char_views, chars_of, contains_char, has_char, join, join_strings, lowercase, owned, push_str,
    lemma_replace_concat, replace_char, replace_char_exec, sort_indices, sorted_order, str_eq, to_lowercase,
};

verus! {

/// The text formats a bundle can be exported to.
#[derive(Debug, Clone, Copy, PartialEq, Eq)]
pub enum ExportFormat {
    /// A JSON object.
    Json,
    /// `KEY=value` lines.
    DotEnv,
    /// A TOML table.
    Toml,
}

/// The format named by an already lowercased name, if any.
pub open spec fn format_named(l: Seq<char>) -> Option<ExportFormat> {
    if l == "json"@ {
        Some(ExportFormat::Json)
    } else if l == "dotenv"@ || l == "env"@ {
        Some(ExportFormat::DotEnv)
    } else if l == "toml"@ {
        Some(ExportFormat::Toml)
    } else {
        None
    }
}

/// The message for an unknown format name (given lowercased).
pub open spec fn unsupported_msg(l: Seq<char>) -> Seq<char> {
    "Unsupported export format: '"@ + l + "'. Use json, dotenv, or toml."@
}

/// The file extension of a format.
pub open spec fn extension_of(f: ExportFormat) -> Seq<char> {
    match f {
        ExportFormat::Json => "json"@,
        ExportFormat::DotEnv => "env"@,
        ExportFormat::Toml => "toml"@,
    }
}

impl ExportFormat {
    /// Parses a format name, ignoring case: `json`, `dotenv` or `env`, `toml`.
    pub fn from_str(s: &str) -> (r: Result<ExportFormat, VaultError>)
        ensures
            format_named(lowercase(s@)) matches Some(f) ==> r == Ok::<ExportFormat, VaultError>(f),
            format_named(lowercase(s@)) is None ==> (r matches Err(e) && e is InvalidFormat
                && e.msg() == unsupported_msg(lowercase(s@))),
    {
        let l = to_lowercase(s);
        proof {
            reveal_strlit("json");
            reveal_strlit("dotenv");
            reveal_strlit("env");
            reveal_strlit("toml");
        }
        if str_eq(l.as_str(), "json") {
            Ok(ExportFormat::Json)
        } else if str_eq(l.as_str(), "dotenv") || str_eq(l.as_str(), "env") {
            Ok(ExportFormat::DotEnv)
        } else if str_eq(l.as_str(), "toml") {
            Ok(ExportFormat::Toml)
        } else {
            let m = String::from_str("Unsupported export format: '").concat(l.as_str()).concat(
                "'. Use json, dotenv, or toml.",
            );
            Err(VaultError::InvalidFormat(m))
        }
    }

    /// The usual file extension for the format.
    pub fn extension(&self) -> (r: &'static str)
        ensures
            r@ == extension_of(*self),
    {
        match self {
            ExportFormat::Json => "json",
            ExportFormat::DotEnv => "env",
            ExportFormat::Toml => "toml",
        }
    }
}

/// Each format's extension, read as a (lowercase) format name, names that format.
pub proof fn law_extension_names_format(f: ExportFormat)
    ensures
        format_named(extension_of(f)) == Some(f),
{
    reveal_strlit("json");
    reveal_strlit("dotenv");
    reveal_strlit("env");
    reveal_strlit("toml");
    assert("env"@.len() == 3 && "json"@.len() == 4 && "toml"@.len() == 4 && "dotenv"@.len() == 6);
    assert("json"@[0] == 'j' && "toml"@[0] == 't');
}

/// A value that must be quoted in a dotenv line: it holds a space, a `"` or a newline.
pub open spec fn needs_quotes(v: Seq<char>) -> bool {
    has_char(v, ' ') || has_char(v, '"') || has_char(v, '\n')
}

/// The dotenv line for one secret: `KEY=value`, or `KEY="value"` with each `"`
/// escaped as `\"` when the value needs quotes.
pub open spec fn dotenv_line(k: Seq<char>, v: Seq<char>) -> Seq<char> {
    if needs_quotes(v) {
        k + "=\""@ + replace_char(v, '"', "\\\""@) + "\""@
    } else {
        k + "="@ + v
    }
}

/// The dotenv lines of the entries, in entry order.
pub open spec fn dotenv_lines(s: Seq<(Seq<char>, Seq<char>)>) -> Seq<Seq<char>> {
    s.map_values(|p: (Seq<char>, Seq<char>)| dotenv_line(p.0, p.1))
}

/// The lines taken in `order`, each followed by a newline.
pub open spec fn lines_text(lines: Seq<Seq<char>>, order: Seq<usize>) -> Seq<char> {
    join(order.map_values(|i: usize| lines[i as int]), "\n"@) + "\n"@
}

fn dotenv_line_exec(k: &str, v: &str) -> (r: String)
    ensures
        r@ == dotenv_line(k@, v@),
{
    let mut l = owned(k);
    if contains_char(v, ' ') || contains_char(v, '"') || contains_char(v, '\n') {
        push_str(&mut l, "=\"");
        let escaped = replace_char_exec(v, '"', "\\\"");
        push_str(&mut l, escaped.as_str());
        push_str(&mut l, "\"");
    } else {
        push_str(&mut l, "=");
        push_str(&mut l, v);
    }
    l
}

/// The secrets as dotenv text: one line per secret, the lines in sorted order,
/// each ended by a newline (a lone newline when there are none).
pub fn serialize_dotenv(secrets: &StrMap<String>) -> (r: String)
    ensures
        exists|order: Seq<usize>| sorted_order(dotenv_lines(secrets@), order)
            && r@ == lines_text(dotenv_lines(secrets@), order)
            && ((forall|i: int| 0 <= i < secrets@.len() ==> dotenv_readable(#[trigger] secrets@[i].0, secrets@[i].1))
                ==> dotenv_read(r@) == Some(order.map_values(|i: usize| secrets@[i as int]))),
{
    let ghost s = secrets@;
    let ghost ls = dotenv_lines(s);
    let n = secrets.len();
    let mut lines: Vec<String> = Vec::new();
    let mut chars: Vec<Vec<char>> = Vec::new();
    let mut i: usize = 0;
    while i < n
        invariant
            s == secrets@,
            ls == dotenv_lines(s),
            n == s.len(),
            i <= n,
            lines@.len() == i,
            chars@.len() == i,
            forall|j: int| 0 <= j < i ==> (#[trigger] lines@[j])@ == ls[j],
            forall|j: int| 0 <= j < i ==> (#[trigger] chars@[j])@ == ls[j],
        decreases n - i,
    {
        let line = dotenv_line_exec(secrets.key_at(i).as_str(), secrets.value_at(i).as_str());
        let cs = chars_of(line.as_str());
        lines.push(line);
        chars.push(cs);
        i = i + 1;
    }
    assert(char_views(chars@) =~= ls);
    let order = sort_indices(&chars);
    let mut sorted: Vec<String> = Vec::new();
    let mut j: usize = 0;
    while j < order.len()
        invariant
            ls == dotenv_lines(s),
            lines@.len() == ls.len(),
            forall|a: int| 0 <= a < lines@.len() ==> (#[trigger] lines@[a])@ == ls[a],
            sorted_order(ls, order@),
            j <= order@.len(),
            sorted@.len() == j,
            forall|a: int| 0 <= a < j ==> (#[trigger] sorted@[a])@ == ls[order@[a] as int],
        decreases order@.len() - j,
    {
        let p = order[j];
        let line = lines[p].clone();
        sorted.push(line);
        j = j + 1;
    }
    let mut out = join_strings(&sorted, "\n");
    push_str(&mut out, "\n");
    assert(sorted@.map_values(|p: String| p@) =~= order@.map_values(|i: usize| ls[i as int]));
    proof {
        if forall|a: int| 0 <= a < s.len() ==> dotenv_readable(#[trigger] s[a].0, s[a].1) {
            law_dotenv_reads_back(s, order@);
        }
    }
    out
}

/// What `serde_json::to_string_pretty` writes for the entries gathered in a
/// `BTreeMap` (keys in sorted order).
pub uninterp spec fn json_text(entries: Seq<(Seq<char>, Seq<char>)>) -> Seq<char>;

/// What `toml::to_string` writes for the entries gathered in a `BTreeMap`.
pub uninterp spec fn toml_text(entries: Seq<(Seq<char>, Seq<char>)>) -> Seq<char>;

/// Calls `serde_json::to_string_pretty` on the entries gathered in a `BTreeMap`.
/// Its documentation says serialization fails only when a `Serialize` impl
/// fails or a map key is not a string; neither can happen for a map from
/// strings to strings, so the call is stated to succeed, with the text named
/// `json_text`.
#[verifier::external_body]
fn json_pretty(secrets: &StrMap<String>) -> (r: Result<String, String>)
    ensures
        r is Ok,
        r->Ok_0@ == json_text(secrets@),
{
    let m: BTreeMap<&String, &String> = secrets.pairs().into_iter().collect();
    serde_json::to_string_pretty(&m).map_err(|e| e.to_string())
}

/// Calls `toml::to_string` on the entries gathered in a `BTreeMap`. Its
/// documentation says serialization fails only for a failing `Serialize` impl,
/// a non-string map key or an unsupported type (enum, tuple); none occurs in a
/// map from strings to strings, so the call is stated to succeed, with the text
/// named `toml_text`.
#[verifier::external_body]
fn toml_string(secrets: &StrMap<String>) -> (r: Result<String, String>)
    ensures
        r is Ok,
        r->Ok_0@ == toml_text(secrets@),
{
    let m: BTreeMap<&String, &String> = secrets.pairs().into_iter().collect();
    toml::to_string(&m).map_err(|e| e.to_string())
}

/// The secrets as a pretty-printed JSON object.
pub fn serialize_json(secrets: &StrMap<String>) -> (r: Result<String, VaultError>)
    ensures
        r matches Ok(t) && t@ == json_text(secrets@),
{
    match json_pretty(secrets) {
        Ok(t) => Ok(t),
        Err(e) => Err(VaultError::Serialization(String::from_str("JSON serialization error: ").concat(e.as_str()))),
    }
}

/// The secrets as a TOML table.
pub fn serialize_toml(secrets: &StrMap<String>) -> (r: Result<String, VaultError>)
    ensures
        r matches Ok(t) && t@ == toml_text(secrets@),
{
    match toml_string(secrets) {
        Ok(t) => Ok(t),
        Err(e) => Err(VaultError::Serialization(String::from_str("TOML serialization error: ").concat(e.as_str()))),
    }
}

/// The text that exporting `bundle` in `format` writes.
pub fn export_content(bundle: &Bundle, format: &ExportFormat) -> (r: Result<String, VaultError>)
    ensures
        *format == ExportFormat::Json ==> (r matches Ok(t) && t@ == json_text(bundle.secrets@)),
        *format == ExportFormat::Toml ==> (r matches Ok(t) && t@ == toml_text(bundle.secrets@)),
        *format == ExportFormat::DotEnv ==> (r matches Ok(t) && exists|order: Seq<usize>|
            sorted_order(dotenv_lines(bundle.secrets@), order)
            && t@ == lines_text(dotenv_lines(bundle.secrets@), order)),
{
    match format {
        ExportFormat::Json => serialize_json(&bundle.secrets),
        ExportFormat::DotEnv => Ok(serialize_dotenv(&bundle.secrets)),
        ExportFormat::Toml => serialize_toml(&bundle.secrets),
    }
}

/// The position of the first `c` in `s`, if any.
pub open spec fn first_char(s: Seq<char>, c: char) -> Option<nat>
    decreases s.len(),
{
    if s.len() == 0 {
        None
    } else if s[0] == c {
        Some(0)
    } else {
        match first_char(s.skip(1), c) {
            Some(n) => Some(n + 1),
            None => None,
        }
    }
}

/// How a dotenv reader reads a double-quoted value, from just after its
/// opening quote: `\"` stands for `"`, any other character for itself, up to
/// the closing `"`. The value and how many characters were read, the closing
/// quote included.
pub open spec fn quoted_value(s: Seq<char>) -> Option<(Seq<char>, nat)>
    decreases s.len(),
{
    if s.len() == 0 {
        None
    } else if s[0] == '"' {
        Some((Seq::empty(), 1))
    } else if s[0] == '\\' && s.len() >= 2 && s[1] == '"' {
        match quoted_value(s.skip(2)) {
            Some((v, n)) => Some((seq!['"'] + v, n + 2)),
            None => None,
        }
    } else {
        match quoted_value(s.skip(1)) {
            Some((v, n)) => Some((seq![s[0]] + v, n + 1)),
            None => None,
        }
    }
}

/// How a dotenv reader reads the line at the start of `t`: the key up to the
/// first `=`, then either a double-quoted value followed by the end of the
/// line, or the rest of the line as it is. The entry and how many characters
/// were read, the newline included.
pub open spec fn dotenv_entry(t: Seq<char>) -> Option<((Seq<char>, Seq<char>), nat)> {
    match first_char(t, '=') {
        None => None,
        Some(e) => {
            let k = t.take(e as int);
            let r = t.skip(e as int + 1);
            if has_char(k, '\n') {
                None
            } else if r.len() > 0 && r[0] == '"' {
                match quoted_value(r.skip(1)) {
                    Some((v, n)) => if 1 + n < r.len() && r[1 + n as int] == '\n' {
                        Some(((k, v), (e + 1 + 1 + n + 1) as nat))
                    } else {
                        None
                    },
                    None => None,
                }
            } else {
                match first_char(r, '\n') {
                    Some(j) => Some(((k, r.take(j as int)), (e + 1 + j + 1) as nat)),
                    None => None,
                }
            }
        },
    }
}

/// How a dotenv reader reads a whole text, line by line, skipping empty
/// lines: the entries in order, or `None` when a line cannot be read.
pub open spec fn dotenv_read(t: Seq<char>) -> Option<Seq<(Seq<char>, Seq<char>)>>
    decreases t.len(),
{
    if t.len() == 0 {
        Some(Seq::empty())
    } else if t[0] == '\n' {
        dotenv_read(t.skip(1))
    } else {
        match dotenv_entry(t) {
            Some((e, n)) => if 0 < n <= t.len() {
                match dotenv_read(t.skip(n as int)) {
                    Some(es) => Some(seq![e] + es),
                    None => None,
                }
            } else {
                None
            },
            None => None,
        }
    }
}

/// An entry a dotenv reader reads back as written: its key holds no `=` and no
/// newline, and a value that gets quoted (one with a space, a `"` or a
/// newline) does not end with a backslash, which would escape the closing
/// quote.
pub open spec fn dotenv_readable(k: Seq<char>, v: Seq<char>) -> bool {
    &&& !has_char(k, '=')
    &&& !has_char(k, '\n')
    &&& !((has_char(v, ' ') || has_char(v, '"') || has_char(v, '\n')) && v.len() > 0 && v.last() == '\\')
}

proof fn lemma_first_char(a: Seq<char>, c: char, b: Seq<char>)
    requires
        !has_char(a, c),
    ensures
        first_char(a + seq![c] + b, c) == Some(a.len()),
    decreases a.len(),
{
    let s = a + seq![c] + b;
    if a.len() == 0 {
        assert(s[0] == c);
    } else {
        assert(s[0] == a[0]);
        assert(a[0] != c);
        let a1 = a.skip(1);
        assert(s.skip(1) =~= a1 + seq![c] + b);
        assert(!has_char(a1, c)) by {
            if has_char(a1, c) {
                let i = choose|i: int| 0 <= i < a1.len() && a1[i] == c;
                assert(a[i + 1] == c);
            }
        }
        lemma_first_char(a1, c, b);
    }
}

proof fn lemma_quoted_value(v: Seq<char>, t: Seq<char>)
    requires
        !(v.len() > 0 && v.last() == '\\'),
    ensures
        quoted_value(replace_char(v, '"', "\\\""@) + "\""@ + t) == Some((v, (replace_char(v, '"', "\\\""@).len()
            + 1) as nat)),
    decreases v.len(),
{
    reveal_strlit("\"");
    reveal_strlit("\\\"");
    let q = "\""@;
    let rep = "\\\""@;
    if v.len() == 0 {
        assert(replace_char(v, '"', rep) =~= Seq::<char>::empty());
        let s = replace_char(v, '"', rep) + q + t;
        assert(s[0] == '"');
    } else {
        let c = v[0];
        let w = v.skip(1);
        assert(v =~= seq![c] + w);
        assert(!(w.len() > 0 && w.last() == '\\')) by {
            if w.len() > 0 {
                assert(w.last() == v.last());
            }
        }
        lemma_replace_concat(seq![c], w, '"', rep);
        assert(seq![c].drop_last() =~= Seq::<char>::empty());
        assert(replace_char(Seq::<char>::empty(), '"', rep) =~= Seq::<char>::empty());
        let rw = replace_char(w, '"', rep);
        lemma_quoted_value(w, t);
        let s = replace_char(v, '"', rep) + q + t;
        if c == '"' {
            assert(replace_char(seq![c], '"', rep) =~= rep);
            assert(s =~= rep + rw + q + t);
            assert(s[0] == '\\' && s[1] == '"');
            assert(s.skip(2) =~= rw + q + t);
            assert(seq!['"'] + w =~= v);
        } else {
            assert(replace_char(seq![c], '"', rep) =~= seq![c]);
            assert(s =~= seq![c] + (rw + q + t));
            assert(s[0] == c);
            assert(s.skip(1) =~= rw + q + t);
            if c == '\\' {
                assert(w.len() > 0);
                if rw.len() == 0 {
                    lemma_replace_len_pos(w);
                }
                assert(s[1] == rw[0]);
                lemma_replace_first(w);
                assert(rw[0] != '"');
            }
            assert(seq![c] + w =~= v);
        }
    }
}

proof fn lemma_replace_len_pos(w: Seq<char>)
    requires
        w.len() > 0,
    ensures
        replace_char(w, '"', "\\\""@).len() > 0,
    decreases w.len(),
{
    reveal_strlit("\\\"");
    if w.len() > 1 {
        lemma_replace_len_pos(w.drop_last());
    } else {
        assert(w.drop_last() =~= Seq::<char>::empty());
        assert(replace_char(w.drop_last(), '"', "\\\""@) =~= Seq::<char>::empty());
    }
}

/// The escaped text never starts with `"` (a `"` is written as `\"`).
proof fn lemma_replace_first(w: Seq<char>)
    requires
        w.len() > 0,
    ensures
        replace_char(w, '"', "\\\""@).len() > 0,
        replace_char(w, '"', "\\\""@)[0] != '"',
    decreases w.len(),
{
    reveal_strlit("\\\"");
    lemma_replace_len_pos(w);
    if w.len() > 1 {
        lemma_replace_first(w.drop_last());
    } else {
        assert(w.drop_last() =~= Seq::<char>::empty());
        assert(replace_char(w.drop_last(), '"', "\\\""@) =~= Seq::<char>::empty());
    }
}

/// A line written for a readable entry, followed by a newline, reads back as
/// the entry, consuming exactly that line.
proof fn lemma_line_reads_back(k: Seq<char>, v: Seq<char>, rest: Seq<char>)
    requires
        dotenv_readable(k, v),
    ensures
        dotenv_entry(dotenv_line(k, v) + "\n"@ + rest) == Some(((k, v), (dotenv_line(k, v).len() + 1) as nat)),
{
    reveal_strlit("\n");
    reveal_strlit("=");
    reveal_strlit("=\"");
    reveal_strlit("\"");
    let line = dotenv_line(k, v);
    let t = line + "\n"@ + rest;
    if needs_quotes(v) {
        let rv = replace_char(v, '"', "\\\""@);
        assert(line =~= k + seq!['='] + (seq!['"'] + rv + "\""@));
        assert(t =~= k + seq!['='] + (seq!['"'] + rv + "\""@ + "\n"@ + rest));
        lemma_first_char(k, '=', seq!['"'] + rv + "\""@ + "\n"@ + rest);
        let e = k.len();
        assert(t.take(e as int) =~= k);
        let r = t.skip(e as int + 1);
        assert(r =~= seq!['"'] + rv + "\""@ + "\n"@ + rest);
        assert(r.skip(1) =~= rv + "\""@ + ("\n"@ + rest));
        lemma_quoted_value(v, "\n"@ + rest);
        let n = rv.len() + 1;
        assert(r[1 + n as int] == '\n');
    } else {
        assert(line =~= k + seq!['='] + v);
        assert(t =~= k + seq!['='] + (v + "\n"@ + rest));
        lemma_first_char(k, '=', v + "\n"@ + rest);
        let e = k.len();
        assert(t.take(e as int) =~= k);
        let r = t.skip(e as int + 1);
        assert(r =~= v + seq!['\n'] + rest);
        assert(!has_char(v, '"'));
        assert(v.len() > 0 ==> r[0] == v[0]);
        lemma_first_char(v, '\n', rest);
        assert(r.take(v.len() as int) =~= v);
        if v.len() == 0 {
            assert(r[0] == '\n');
        }
    }
}

/// The lines, each followed by a newline.
pub open spec fn ended_lines(ls: Seq<Seq<char>>) -> Seq<char>
    decreases ls.len(),
{
    if ls.len() == 0 {
        Seq::empty()
    } else {
        ls[0] + "\n"@ + ended_lines(ls.skip(1))
    }
}

proof fn lemma_ended_lines_last(ls: Seq<Seq<char>>)
    requires
        ls.len() > 0,
    ensures
        ended_lines(ls) == ended_lines(ls.drop_last()) + ls.last() + "\n"@,
    decreases ls.len(),
{
    if ls.len() == 1 {
        assert(ls.skip(1) =~= Seq::<Seq<char>>::empty());
        assert(ls.drop_last() =~= Seq::<Seq<char>>::empty());
        assert(ended_lines(ls) =~= ended_lines(ls.drop_last()) + ls.last() + "\n"@);
    } else {
        lemma_ended_lines_last(ls.skip(1));
        assert(ls.skip(1).drop_last() =~= ls.drop_last().skip(1));
        assert(ls.drop_last()[0] == ls[0]);
        assert(ls.skip(1).last() == ls.last());
        assert(ended_lines(ls) =~= ended_lines(ls.drop_last()) + ls.last() + "\n"@);
    }
}

proof fn lemma_join_ended(ls: Seq<Seq<char>>)
    requires
        ls.len() > 0,
    ensures
        join(ls, "\n"@) + "\n"@ == ended_lines(ls),
    decreases ls.len(),
{
    lemma_ended_lines_last(ls);
    if ls.len() == 1 {
        assert(ls.drop_last() =~= Seq::<Seq<char>>::empty());
        assert(join(ls, "\n"@) == ls[0]);
        assert(ls.last() == ls[0]);
        assert(join(ls, "\n"@) + "\n"@ =~= ended_lines(ls));
    } else {
        lemma_join_ended(ls.drop_last());
        assert(join(ls, "\n"@) + "\n"@ =~= ended_lines(ls));
    }
}

#[verifier::rlimit(40)]
proof fn lemma_read_ended(es: Seq<(Seq<char>, Seq<char>)>)
    requires
        forall|i: int| 0 <= i < es.len() ==> dotenv_readable(#[trigger] es[i].0, es[i].1),
    ensures
        dotenv_read(ended_lines(es.map_values(|p: (Seq<char>, Seq<char>)| dotenv_line(p.0, p.1)))) == Some(es),
    decreases es.len(),
{
    reveal_strlit("\n");
    let ls = es.map_values(|p: (Seq<char>, Seq<char>)| dotenv_line(p.0, p.1));
    if es.len() == 0 {
        assert(ls =~= Seq::<Seq<char>>::empty());
    } else {
        let rest_es = es.skip(1);
        assert(ls.skip(1) =~= rest_es.map_values(|p: (Seq<char>, Seq<char>)| dotenv_line(p.0, p.1)));
        assert forall|i: int| 0 <= i < rest_es.len() implies dotenv_readable(#[trigger] rest_es[i].0, rest_es[i].1) by {
            assert(rest_es[i] == es[i + 1]);
        }
        lemma_read_ended(rest_es);
        let (k, v) = es[0];
        assert(dotenv_readable(es[0].0, es[0].1));
        let rest = ended_lines(ls.skip(1));
        let t = ended_lines(ls);
        assert(ls[0] == dotenv_line(k, v));
        assert(t == dotenv_line(k, v) + "\n"@ + rest);
        lemma_line_reads_back(k, v, rest);
        let line = dotenv_line(k, v);
        assert(line.len() > 0 && line[0] != '\n') by {
            if needs_quotes(v) {
                assert(line =~= k + ("=\""@ + replace_char(v, '"', "\\\""@) + "\""@));
            } else {
                assert(line =~= k + ("="@ + v));
            }
            reveal_strlit("=\"");
            reveal_strlit("=");
            if k.len() > 0 {
                assert(line[0] == k[0]);
                assert(k[0] != '\n');
            } else {
                assert(line[0] == '=');
            }
        }
        assert(t[0] == line[0]);
        assert(t.skip((line.len() + 1) as int) =~= rest);
        assert(es =~= seq![es[0]] + rest_es);
    }
}

/// Law: dotenv text reads back, line by line, as the secrets it was written
/// from, in the order of its lines, for every map whose keys hold no `=` or
/// newline and whose quoted values do not end with a backslash.
pub proof fn law_dotenv_reads_back(s: Seq<(Seq<char>, Seq<char>)>, order: Seq<usize>)
    requires
        forall|i: int| 0 <= i < s.len() ==> dotenv_readable(#[trigger] s[i].0, s[i].1),
        order.len() == s.len(),
        forall|i: int| 0 <= i < order.len() ==> (#[trigger] order[i] as int) < s.len(),
    ensures
        dotenv_read(lines_text(dotenv_lines(s), order)) == Some(order.map_values(|i: usize| s[i as int])),
{
    reveal_strlit("\n");
    let es = order.map_values(|i: usize| s[i as int]);
    let ls = order.map_values(|i: usize| dotenv_lines(s)[i as int]);
    assert(ls =~= es.map_values(|p: (Seq<char>, Seq<char>)| dotenv_line(p.0, p.1)));
    assert forall|i: int| 0 <= i < es.len() implies dotenv_readable(#[trigger] es[i].0, es[i].1) by {
        assert(es[i] == s[order[i] as int]);
    }
    lemma_read_ended(es);
    if ls.len() == 0 {
        assert(lines_text(dotenv_lines(s), order) =~= "\n"@);
        assert("\n"@.skip(1) =~= Seq::<char>::empty());
        assert(es =~= Seq::<(Seq<char>, Seq<char>)>::empty());
    } else {
        lemma_join_ended(ls);
    }
}

} // verus!
