//! Rendering templates: delimited keys are replaced by secret values.

use vstd::prelude::*;
use vstd::string::StringExecFns;
use crate::error::VaultError;
use crate::strmap::{StrMap, lookup};
use crate::text::{chars_of, find_from, find_from_exec, lemma_find_from_some, owned, string_of, trim, trimmed};

verus! {

/// Substitutes `open KEY close` placeholders with secret values.
pub struct TemplateRenderer {
    pub open_delim: String,
    pub close_delim: String,
}

/// One rewriting step on `s`: `None` when no complete placeholder is left;
/// otherwise the first placeholder (the first opening delimiter and the first
/// closing delimiter after it) is replaced by the value of its trimmed key,
/// or `Err(key)` when the key has no value.
pub open spec fn step(s: Seq<char>, open: Seq<char>, close: Seq<char>, secrets: Seq<(Seq<char>, Seq<char>)>) -> Option<Result<Seq<char>, Seq<char>>> {
    match find_from(s, open, 0) {
        None => None,
        Some(p) => {
            let a = p + open.len();
            match find_from(s, close, a) {
                None => None,
                Some(q) => {
                    let key = trimmed(s.subrange(a, q));
                    match lookup(secrets, key) {
                        None => Some(Err(key)),
                        Some(v) => Some(Ok(s.subrange(0, p) + v + s.subrange(q + close.len(), s.len() as int))),
                    }
                },
            }
        },
    }
}

/// The outcome of at most `fuel` rewriting steps: `None` when more are needed.
pub open spec fn run(s: Seq<char>, open: Seq<char>, close: Seq<char>, secrets: Seq<(Seq<char>, Seq<char>)>, fuel: nat) -> Option<Result<Seq<char>, Seq<char>>>
    decreases fuel,
{
    match step(s, open, close, secrets) {
        None => Some(Ok(s)),
        Some(Err(k)) => Some(Err(k)),
        Some(Ok(next)) => if fuel == 0 {
            None
        } else {
            run(next, open, close, secrets, (fuel - 1) as nat)
        },
    }
}

/// Rewriting `t` comes to an end (a value that holds a placeholder can make it
/// go on forever).
pub open spec fn render_terminates(t: Seq<char>, open: Seq<char>, close: Seq<char>, secrets: Seq<(Seq<char>, Seq<char>)>) -> bool {
    exists|f: nat| run(t, open, close, secrets, f) is Some
}

/// The rendered text, or the first key without a value.
pub open spec fn render_outcome(t: Seq<char>, open: Seq<char>, close: Seq<char>, secrets: Seq<(Seq<char>, Seq<char>)>) -> Result<Seq<char>, Seq<char>> {
    run(t, open, close, secrets, choose|f: nat| run(t, open, close, secrets, f) is Some)->0
}

proof fn lemma_run_fuel(s: Seq<char>, open: Seq<char>, close: Seq<char>, secrets: Seq<(Seq<char>, Seq<char>)>, f: nat, g: nat)
    requires
        run(s, open, close, secrets, f) is Some,
        f <= g,
    ensures
        run(s, open, close, secrets, g) == run(s, open, close, secrets, f),
    decreases f,
{
    match step(s, open, close, secrets) {
        Some(Ok(next)) => {
            lemma_run_fuel(next, open, close, secrets, (f - 1) as nat, (g - 1) as nat);
        },
        _ => {},
    }
}

/// The keys of placeholders in `s` from position `i` on, trimmed, without the
/// empty ones.
pub open spec fn keys_from(s: Seq<char>, open: Seq<char>, close: Seq<char>, i: int) -> Seq<Seq<char>>
    decreases s.len() + 1 - i,
{
    if open.len() + close.len() == 0 || i < 0 || i > s.len() {
        Seq::empty()
    } else {
        match find_from(s, open, i) {
            None => Seq::empty(),
            Some(p) => {
                let a = p + open.len();
                match find_from(s, close, a) {
                    None => Seq::empty(),
                    Some(q) => {
                        proof {
                            lemma_find_from_some(s, open, i);
                            lemma_find_from_some(s, close, a);
                        }
                        let key = trimmed(s.subrange(a, q));
                        (if key.len() > 0 { seq![key] } else { Seq::empty() }) + keys_from(s, open, close, q + close.len())
                    },
                }
            },
        }
    }
}

fn subvec(s: &Vec<char>, a: usize, b: usize) -> (r: Vec<char>)
    requires
        a <= b <= s@.len(),
    ensures
        r@ == s@.subrange(a as int, b as int),
{
    let mut r: Vec<char> = Vec::new();
    let mut i: usize = a;
    while i < b
        invariant
            a <= i <= b,
            b <= s@.len(),
            r@ == s@.subrange(a as int, i as int),
        decreases b - i,
    {
        r.push(s[i]);
        i = i + 1;
    }
    r
}

fn append_chars(r: &mut Vec<char>, s: &Vec<char>)
    ensures
        final(r)@ == old(r)@ + s@,
{
    let mut i: usize = 0;
    let ghost start = r@;
    while i < s.len()
        invariant
            i <= s@.len(),
            r@ == start + s@.subrange(0, i as int),
        decreases s@.len() - i,
    {
        r.push(s[i]);
        i = i + 1;
    }
    assert(s@.subrange(0, s@.len() as int) =~= s@);
}

fn render_step(s: &Vec<char>, open: &Vec<char>, close: &Vec<char>, secrets: &StrMap<String>) -> (r: Option<Result<Vec<char>, String>>)
    ensures
        match r {
            None => step(s@, open@, close@, secrets@) is None,
            Some(Ok(n)) => step(s@, open@, close@, secrets@) == Some(Ok::<Seq<char>, Seq<char>>(n@)),
            Some(Err(k)) => step(s@, open@, close@, secrets@) == Some(Err::<Seq<char>, Seq<char>>(k@)),
        },
{
    let _n = s.len();
    let p = match find_from_exec(s, open, 0) {
        None => return None,
        Some(p) => p,
    };
    proof { lemma_find_from_some(s@, open@, 0); }
    let a = p + open.len();
    let q = match find_from_exec(s, close, a) {
        None => return None,
        Some(q) => q,
    };
    proof { lemma_find_from_some(s@, close@, a as int); }
    let inner = string_of(subvec(s, a, q).as_slice());
    let key = trim(inner.as_str());
    match secrets.get(key.as_str()) {
        None => Some(Err(key)),
        Some(v) => {
            let mut out = subvec(s, 0, p);
            append_chars(&mut out, &chars_of(v.as_str()));
            append_chars(&mut out, &subvec(s, q + close.len(), s.len()));
            Some(Ok(out))
        },
    }
}

impl TemplateRenderer {
    /// The default renderer, with `{{{` and `}}}` as delimiters.
    pub fn default() -> (r: TemplateRenderer)
        ensures
            r.open_delim@ == "{{{"@,
            r.close_delim@ == "}}}"@,
    {
        TemplateRenderer { open_delim: String::from_str("{{{"), close_delim: String::from_str("}}}") }
    }

    /// A renderer with the given delimiters.
    pub fn new(open_delim: &str, close_delim: &str) -> (r: TemplateRenderer)
        ensures
            r.open_delim@ == open_delim@,
            r.close_delim@ == close_delim@,
    {
        TemplateRenderer { open_delim: owned(open_delim), close_delim: owned(close_delim) }
    }

    /// Replaces placeholders, first to last, by the values of their trimmed
    /// keys, searching again from the start after each replacement. Fails on
    /// the first key that has no value.
    pub fn render(&self, template: &str, secrets: &StrMap<String>) -> (r: Result<String, VaultError>)
        requires
            render_terminates(template@, self.open_delim@, self.close_delim@, secrets@),
        ensures
            match render_outcome(template@, self.open_delim@, self.close_delim@, secrets@) {
                Ok(out) => r matches Ok(s) && s@ == out,
                Err(key) => r matches Err(e) && e is Generic
                    && e.msg() == "Template key not found in secrets: '"@ + key + "'"@,
            },
    {
        let ghost o = self.open_delim@;
        let ghost c = self.close_delim@;
        let ghost f = choose|f: nat| run(template@, o, c, secrets@, f) is Some;
        let ghost outcome = run(template@, o, c, secrets@, f);
        assert(outcome is Some);
        assert(render_outcome(template@, self.open_delim@, self.close_delim@, secrets@) == outcome->0);
        let open = chars_of(self.open_delim.as_str());
        let close = chars_of(self.close_delim.as_str());
        let mut output = chars_of(template);
        let ghost mut fuel: nat = f;
        loop
            invariant
                open@ == o,
                close@ == c,
                run(output@, o, c, secrets@, fuel) == outcome,
                outcome is Some,
                outcome == run(template@, o, c, secrets@, f),
                render_outcome(template@, self.open_delim@, self.close_delim@, secrets@) == outcome->0,
            decreases fuel,
        {
            match render_step(&output, &open, &close, secrets) {
                None => {
                    assert(run(output@, o, c, secrets@, fuel) == Some(Ok::<Seq<char>, Seq<char>>(output@)));
                    return Ok(string_of(output.as_slice()));
                },
                Some(Err(key)) => {
                    assert(run(output@, o, c, secrets@, fuel) == Some(Err::<Seq<char>, Seq<char>>(key@)));
                    let m = String::from_str("Template key not found in secrets: '").concat(key.as_str()).concat("'");
                    return Err(VaultError::Generic(m));
                },
                Some(Ok(next)) => {
                    assert(fuel > 0);
                    output = next;
                    proof { fuel = (fuel - 1) as nat; }
                },
            }
        }
    }

    /// The trimmed, non-empty keys of all placeholders, in order; after each
    /// placeholder the search goes on behind it.
    pub fn extract_keys(&self, template: &str) -> (r: Vec<String>)
        requires
            self.open_delim@.len() + self.close_delim@.len() > 0,
        ensures
            r@.map_values(|k: String| k@) == keys_from(template@, self.open_delim@, self.close_delim@, 0),
    {
        let ghost o = self.open_delim@;
        let ghost c = self.close_delim@;
        let s = chars_of(template);
        let open = chars_of(self.open_delim.as_str());
        let close = chars_of(self.close_delim.as_str());
        let mut keys: Vec<String> = Vec::new();
        let mut i: usize = 0;
        let ghost start_keys = keys_from(s@, o, c, 0);
        assert(keys@.map_values(|k: String| k@) + keys_from(s@, o, c, 0) =~= start_keys);
        loop
            invariant
                s@ == template@,
                open@ == o,
                close@ == c,
                o.len() + c.len() > 0,
                i <= s@.len(),
                keys@.map_values(|k: String| k@) + keys_from(s@, o, c, i as int) == start_keys,
            ensures
                keys@.map_values(|k: String| k@) == start_keys,
            decreases s@.len() + 1 - i,
        {
            let _n = s.len();
            let p = match find_from_exec(&s, &open, i) {
                None => {
                    assert(keys_from(s@, o, c, i as int) =~= Seq::<Seq<char>>::empty());
                    assert(keys@.map_values(|k: String| k@) =~= start_keys);
                    break;
                },
                Some(p) => p,
            };
            proof { lemma_find_from_some(s@, o, i as int); }
            let a = p + open.len();
            let q = match find_from_exec(&s, &close, a) {
                None => {
                    assert(keys_from(s@, o, c, i as int) =~= Seq::<Seq<char>>::empty());
                    assert(keys@.map_values(|k: String| k@) =~= start_keys);
                    break;
                },
                Some(q) => q,
            };
            proof { lemma_find_from_some(s@, c, a as int); }
            let inner = string_of(subvec(&s, a, q).as_slice());
            let key = trim(inner.as_str());
            let ghost kv = key@;
            let ghost before = keys@.map_values(|k: String| k@);
            if key.as_str().is_empty() {
                assert(keys_from(s@, o, c, i as int) == keys_from(s@, o, c, q + c.len()));
            } else {
                keys.push(key);
                assert(keys@.map_values(|k: String| k@) =~= before.push(kv));
                assert(keys_from(s@, o, c, i as int) =~= seq![kv] + keys_from(s@, o, c, q + c.len()));
                assert(keys@.map_values(|k: String| k@) + keys_from(s@, o, c, (q + close.len()) as int) =~= start_keys);
            }
            i = q + close.len();
        }
        keys
    }
}

/// Law: a template with no opening delimiter renders to itself.
pub proof fn law_no_placeholder_renders_itself(t: Seq<char>, open: Seq<char>, close: Seq<char>, secrets: Seq<(Seq<char>, Seq<char>)>)
    requires
        find_from(t, open, 0) is None,
    ensures
        render_terminates(t, open, close, secrets),
        render_outcome(t, open, close, secrets) == Ok::<Seq<char>, Seq<char>>(t),
{
    assert(run(t, open, close, secrets, 0) is Some);
    let f = choose|f: nat| run(t, open, close, secrets, f) is Some;
    assert(run(t, open, close, secrets, f) == Some(Ok::<Seq<char>, Seq<char>>(t)));
}

} // verus!
