//! Character-level string functions with their specifications. Strings are
//! viewed as sequences of `char`; byte lengths are those of the UTF-8 encoding.

use vstd::prelude::*;
use vstd::string::StrSliceExecFns;
use vstd::string::StringExecFns;

verus! {

// ---------------------------------------------------------------------------
// Specifications
// ---------------------------------------------------------------------------

/// `char::is_whitespace`: the Unicode `White_Space` property.
pub open spec fn is_ws(c: char) -> bool {
    let u = c as u32;
    ||| u == 0x20
    ||| 0x09 <= u <= 0x0d
    ||| u == 0x85
    ||| u == 0xa0
    ||| u == 0x1680
    ||| 0x2000 <= u <= 0x200a
    ||| u == 0x2028
    ||| u == 0x2029
    ||| u == 0x202f
    ||| u == 0x205f
    ||| u == 0x3000
}

/// Every character is whitespace (`s.trim().is_empty()`).
pub open spec fn is_blank(s: Seq<char>) -> bool {
    forall|i: int| 0 <= i < s.len() ==> is_ws(#[trigger] s[i])
}

/// `s` without its leading whitespace.
pub open spec fn trim_start(s: Seq<char>) -> Seq<char>
    decreases s.len(),
{
    if s.len() > 0 && is_ws(s[0]) {
        trim_start(s.drop_first())
    } else {
        s
    }
}

/// `s` without its trailing whitespace.
pub open spec fn trim_end(s: Seq<char>) -> Seq<char>
    decreases s.len(),
{
    if s.len() > 0 && is_ws(s.last()) {
        trim_end(s.drop_last())
    } else {
        s
    }
}

/// `str::trim`.
pub open spec fn trimmed(s: Seq<char>) -> Seq<char> {
    trim_end(trim_start(s))
}

/// `s` without all leading and trailing occurrences of `c` (`str::trim_matches`).
pub open spec fn strip_char(s: Seq<char>, c: char) -> Seq<char> {
    strip_char_end(strip_char_start(s, c), c)
}

pub open spec fn strip_char_start(s: Seq<char>, c: char) -> Seq<char>
    decreases s.len(),
{
    if s.len() > 0 && s[0] == c {
        strip_char_start(s.drop_first(), c)
    } else {
        s
    }
}

pub open spec fn strip_char_end(s: Seq<char>, c: char) -> Seq<char>
    decreases s.len(),
{
    if s.len() > 0 && s.last() == c {
        strip_char_end(s.drop_last(), c)
    } else {
        s
    }
}

/// `p` is a prefix of `s`.
pub open spec fn has_prefix(s: Seq<char>, p: Seq<char>) -> bool {
    p.len() <= s.len() && s.subrange(0, p.len() as int) == p
}

/// `p` occurs in `s` at position `i`.
pub open spec fn occurs_at(s: Seq<char>, p: Seq<char>, i: int) -> bool {
    0 <= i && i + p.len() <= s.len() && s.subrange(i, i + p.len()) == p
}

/// The first position at or after `i` where `p` occurs in `s` (`str::find`).
pub open spec fn find_from(s: Seq<char>, p: Seq<char>, i: int) -> Option<int>
    decreases s.len() + 1 - i,
{
    if i < 0 || i + p.len() > s.len() {
        None
    } else if occurs_at(s, p, i) {
        Some(i)
    } else {
        find_from(s, p, i + 1)
    }
}

/// `p` occurs somewhere in `s` (`str::contains`).
pub open spec fn has_substr(s: Seq<char>, p: Seq<char>) -> bool {
    exists|i: int| occurs_at(s, p, i)
}

/// `c` occurs in `s`.
pub open spec fn has_char(s: Seq<char>, c: char) -> bool {
    exists|i: int| 0 <= i < s.len() && s[i] == c
}

/// `s` with every `c` replaced by `rep` (`str::replace` with a one-character pattern).
pub open spec fn replace_char(s: Seq<char>, c: char, rep: Seq<char>) -> Seq<char>
    decreases s.len(),
{
    if s.len() == 0 {
        s
    } else {
        replace_char(s.drop_last(), c, rep) + (if s.last() == c {
            rep
        } else {
            seq![s.last()]
        })
    }
}

/// The decimal digit for `d < 10`.
pub open spec fn digit(d: nat) -> char {
    if d == 0 { '0' }
    else if d == 1 { '1' }
    else if d == 2 { '2' }
    else if d == 3 { '3' }
    else if d == 4 { '4' }
    else if d == 5 { '5' }
    else if d == 6 { '6' }
    else if d == 7 { '7' }
    else if d == 8 { '8' }
    else { '9' }
}

/// The decimal representation of `n`, as `Display` writes it.
pub open spec fn decimal(n: nat) -> Seq<char>
    decreases n,
{
    if n < 10 {
        seq![digit(n)]
    } else {
        decimal(n / 10).push(digit(n % 10))
    }
}

/// `n` spaces.
pub open spec fn spaces(n: nat) -> Seq<char> {
    Seq::new(n, |i: int| ' ')
}

/// `c` repeated `n` times (`str::repeat` on a one-character string).
pub open spec fn repeat_char(c: char, n: nat) -> Seq<char> {
    Seq::new(n, |i: int| c)
}

/// The parts joined with `sep` between them (`[String]::join`).
pub open spec fn join(parts: Seq<Seq<char>>, sep: Seq<char>) -> Seq<char>
    decreases parts.len(),
{
    if parts.len() == 0 {
        Seq::empty()
    } else if parts.len() == 1 {
        parts[0]
    } else {
        join(parts.drop_last(), sep) + sep + parts.last()
    }
}

/// Lexicographic order on code points; on UTF-8 strings it agrees with the
/// byte-wise order of `Ord for str`.
pub open spec fn lex_le(a: Seq<char>, b: Seq<char>) -> bool
    decreases a.len(),
{
    if a.len() == 0 {
        true
    } else if b.len() == 0 {
        false
    } else if a[0] != b[0] {
        a[0] < b[0]
    } else {
        lex_le(a.drop_first(), b.drop_first())
    }
}

/// What `str::to_lowercase` returns for `s` (Unicode lowercase mapping).
pub uninterp spec fn lowercase(s: Seq<char>) -> Seq<char>;

/// What `str::to_uppercase` returns for `s` (Unicode uppercase mapping).
pub uninterp spec fn uppercase(s: Seq<char>) -> Seq<char>;

/// What `char::is_alphanumeric` returns for `c`.
pub uninterp spec fn alphanumeric(c: char) -> bool;

/// All characters are ASCII.
pub open spec fn all_ascii(s: Seq<char>) -> bool {
    forall|i: int| 0 <= i < s.len() ==> (#[trigger] s[i] as u32) < 128
}

/// ASCII lowercase of one character.
pub open spec fn ascii_lower_char(c: char) -> char {
    if 'A' <= c && c <= 'Z' { ((c as u32) + 32) as char } else { c }
}

/// ASCII uppercase of one character.
pub open spec fn ascii_upper_char(c: char) -> char {
    if 'a' <= c && c <= 'z' { ((c as u32) - 32) as char } else { c }
}

/// ASCII letters and digits.
pub open spec fn ascii_alnum(c: char) -> bool {
    ('a' <= c && c <= 'z') || ('A' <= c && c <= 'Z') || ('0' <= c && c <= '9')
}

// ---------------------------------------------------------------------------
// Lemmas
// ---------------------------------------------------------------------------

/// Replacing a character in a concatenation replaces it in each part.
pub proof fn lemma_replace_concat(a: Seq<char>, b: Seq<char>, c: char, rep: Seq<char>)
    ensures
        replace_char(a + b, c, rep) == replace_char(a, c, rep) + replace_char(b, c, rep),
    decreases b.len(),
{
    if b.len() == 0 {
        assert(a + b =~= a);
        assert(replace_char(b, c, rep) =~= Seq::<char>::empty());
        assert(replace_char(a, c, rep) + replace_char(b, c, rep) =~= replace_char(a, c, rep));
    } else {
        lemma_replace_concat(a, b.drop_last(), c, rep);
        assert((a + b).drop_last() =~= a + b.drop_last());
        assert((a + b).last() == b.last());
        assert(replace_char(a + b, c, rep) =~= replace_char(a, c, rep) + replace_char(b, c, rep));
    }
}

/// A text occurs in a concatenation when it occurs in either part.
pub proof fn lemma_substr_concat(a: Seq<char>, b: Seq<char>, p: Seq<char>)
    ensures
        has_substr(a, p) ==> has_substr(a + b, p),
        has_substr(b, p) ==> has_substr(a + b, p),
{
    if has_substr(a, p) {
        let i = choose|i: int| occurs_at(a, p, i);
        assert((a + b).subrange(i, i + p.len()) =~= a.subrange(i, i + p.len()));
        assert(occurs_at(a + b, p, i));
    }
    if has_substr(b, p) {
        let i = choose|i: int| occurs_at(b, p, i);
        let j = a.len() + i;
        assert((a + b).subrange(j, j + p.len()) =~= b.subrange(i, i + p.len()));
        assert(occurs_at(a + b, p, j));
    }
}

/// Every part occurs in the parts joined.
pub proof fn lemma_join_has_part(parts: Seq<Seq<char>>, sep: Seq<char>, x: Seq<char>)
    requires
        parts.contains(x),
    ensures
        has_substr(join(parts, sep), x),
    decreases parts.len(),
{
    assert(x.subrange(0, x.len() as int) =~= x);
    assert(occurs_at(x, x, 0));
    if parts.len() == 1 {
        assert(parts[0] == x);
    } else {
        let front = parts.drop_last();
        let j = join(front, sep);
        if parts.last() == x {
            lemma_substr_concat(j + sep, x, x);
        } else {
            let i = choose|i: int| 0 <= i < parts.len() && parts[i] == x;
            assert(i < parts.len() - 1);
            assert(front[i] == x);
            lemma_join_has_part(front, sep, x);
            lemma_substr_concat(j, sep, x);
            lemma_substr_concat(j + sep, parts.last(), x);
        }
    }
}

pub proof fn lemma_lex_refl(a: Seq<char>)
    ensures
        lex_le(a, a),
    decreases a.len(),
{
    if a.len() > 0 {
        lemma_lex_refl(a.drop_first());
    }
}

pub proof fn lemma_lex_total(a: Seq<char>, b: Seq<char>)
    ensures
        lex_le(a, b) || lex_le(b, a),
    decreases a.len(),
{
    if a.len() > 0 && b.len() > 0 {
        if a[0] == b[0] {
            lemma_lex_total(a.drop_first(), b.drop_first());
        }
    }
}

pub proof fn lemma_lex_trans(a: Seq<char>, b: Seq<char>, c: Seq<char>)
    requires
        lex_le(a, b),
        lex_le(b, c),
    ensures
        lex_le(a, c),
    decreases a.len(),
{
    if a.len() > 0 && b.len() > 0 && c.len() > 0 && a[0] == b[0] && b[0] == c[0] {
        lemma_lex_trans(a.drop_first(), b.drop_first(), c.drop_first());
    }
}

pub proof fn lemma_lex_antisym(a: Seq<char>, b: Seq<char>)
    requires
        lex_le(a, b),
        lex_le(b, a),
    ensures
        a == b,
    decreases a.len(),
{
    if a.len() > 0 && b.len() > 0 {
        lemma_lex_antisym(a.drop_first(), b.drop_first());
        assert(a =~= seq![a[0]] + a.drop_first());
        assert(b =~= seq![b[0]] + b.drop_first());
    }
}

// ---------------------------------------------------------------------------
// Executable functions
// ---------------------------------------------------------------------------

/// Appends one character to a string (`String::push`).
#[verifier::external_body]
pub(crate) fn push_char(s: &mut String, c: char)
    ensures
        final(s)@ == old(s)@.push(c),
{
    s.push(c);
}

/// The lowercase form of `s` (`str::to_lowercase`).
#[verifier::external_body]
pub(crate) fn to_lowercase(s: &str) -> (r: String)
    ensures
        r@ == lowercase(s@),
        all_ascii(s@) ==> r@ == s@.map_values(|c: char| ascii_lower_char(c)),
{
    s.to_lowercase()
}

/// The uppercase form of `s` (`str::to_uppercase`).
#[verifier::external_body]
pub(crate) fn to_uppercase(s: &str) -> (r: String)
    ensures
        r@ == uppercase(s@),
        all_ascii(s@) ==> r@ == s@.map_values(|c: char| ascii_upper_char(c)),
{
    s.to_uppercase()
}

/// Whether `c` is alphabetic or numeric (`char::is_alphanumeric`).
#[verifier::external_body]
pub(crate) fn is_alphanumeric(c: char) -> (r: bool)
    ensures
        r == alphanumeric(c),
        (c as u32) < 128 ==> r == ascii_alnum(c),
{
    c.is_alphanumeric()
}

/// The characters of `s`, in order.
pub fn chars_of(s: &str) -> (r: Vec<char>)
    ensures
        r@ == s@,
{
    let n = s.unicode_len();
    let mut r: Vec<char> = Vec::new();
    let mut i: usize = 0;
    while i < n
        invariant
            n == s@.len(),
            i <= n,
            r@ == s@.subrange(0, i as int),
        decreases n - i,
    {
        r.push(s.get_char(i));
        i = i + 1;
    }
    r
}

/// Builds a string from a sequence of characters.
pub fn string_of(cs: &[char]) -> (r: String)
    ensures
        r@ == cs@,
{
    let mut r = String::new();
    let mut i: usize = 0;
    while i < cs.len()
        invariant
            i <= cs@.len(),
            r@ == cs@.subrange(0, i as int),
        decreases cs@.len() - i,
    {
        push_char(&mut r, cs[i]);
        i = i + 1;
    }
    r
}

/// The characters of `cs` from `a` up to (not including) `b`, as a string.
pub fn sub_string(cs: &Vec<char>, a: usize, b: usize) -> (r: String)
    requires
        a <= b <= cs@.len(),
    ensures
        r@ == cs@.subrange(a as int, b as int),
{
    let mut r = String::new();
    let mut i: usize = a;
    while i < b
        invariant
            a <= i <= b,
            b <= cs@.len(),
            r@ == cs@.subrange(a as int, i as int),
        decreases b - i,
    {
        push_char(&mut r, cs[i]);
        i = i + 1;
        assert(r@ =~= cs@.subrange(a as int, i as int));
    }
    r
}

/// A new string holding `s`.
pub fn owned(s: &str) -> (r: String)
    ensures
        r@ == s@,
{
    String::from_str(s)
}

/// Appends `t` to `s`.
pub fn push_str(s: &mut String, t: &str)
    ensures
        final(s)@ == old(s)@ + t@,
{
    s.append(t);
}

/// Whether two strings are equal.
pub fn str_eq(a: &str, b: &str) -> (r: bool)
    ensures
        r == (a@ == b@),
{
    String::from_str(a) == String::from_str(b)
}

/// Whether `c` is whitespace (`char::is_whitespace`).
pub fn is_whitespace(c: char) -> (r: bool)
    ensures
        r == is_ws(c),
{
    let u = c as u32;
    u == 0x20 || (0x09 <= u && u <= 0x0d) || u == 0x85 || u == 0xa0 || u == 0x1680 || (0x2000
        <= u && u <= 0x200a) || u == 0x2028 || u == 0x2029 || u == 0x202f || u == 0x205f || u
        == 0x3000
}

/// Whether `s` holds only whitespace (`s.trim().is_empty()`).
pub fn blank(s: &str) -> (r: bool)
    ensures
        r == is_blank(s@),
{
    let cs = chars_of(s);
    let mut i: usize = 0;
    while i < cs.len()
        invariant
            cs@ == s@,
            i <= cs@.len(),
            forall|j: int| 0 <= j < i ==> is_ws(#[trigger] cs@[j]),
        decreases cs@.len() - i,
    {
        if !is_whitespace(cs[i]) {
            return false;
        }
        i = i + 1;
    }
    true
}

proof fn lemma_trim_start_skip(s: Seq<char>, i: int)
    requires
        0 <= i < s.len(),
        is_ws(s[i]),
    ensures
        trim_start(s.skip(i)) == trim_start(s.skip(i + 1)),
{
    assert(s.skip(i).drop_first() =~= s.skip(i + 1));
}

proof fn lemma_trim_end_take(s: Seq<char>, j: int)
    requires
        0 < j <= s.len(),
        is_ws(s[j - 1]),
    ensures
        trim_end(s.take(j)) == trim_end(s.take(j - 1)),
{
    assert(s.take(j).drop_last() =~= s.take(j - 1));
}

/// `s` with leading and trailing whitespace removed (`str::trim`).
pub fn trim(s: &str) -> (r: String)
    ensures
        r@ == trimmed(s@),
{
    let cs = chars_of(s);
    let ghost t = cs@;
    let mut i: usize = 0;
    assert(t.skip(0) =~= t);
    while i < cs.len() && is_whitespace(cs[i])
        invariant
            cs@ == t,
            i <= t.len(),
            trim_start(t) == trim_start(t.skip(i as int)),
        decreases t.len() - i,
    {
        proof { lemma_trim_start_skip(t, i as int); }
        i = i + 1;
    }
    let ghost u = t.skip(i as int);
    assert(trim_start(t) == u);
    let mut j: usize = cs.len() - i;
    assert(u.take(j as int) =~= u);
    let n0 = cs.len();
    while j > 0 && is_whitespace(cs[i + j - 1])
        invariant
            n0 == t.len(),
            cs@ == t,
            u == t.skip(i as int),
            i <= t.len(),
            j <= u.len(),
            trim_end(u) == trim_end(u.take(j as int)),
        decreases j,
    {
        proof { lemma_trim_end_take(u, j as int); }
        j = j - 1;
    }
    assert(trim_end(u.take(j as int)) == u.take(j as int));
    let mut out = String::new();
    let mut k: usize = 0;
    let n = cs.len();
    while k < j
        invariant
            n == t.len(),
            cs@ == t,
            u == t.skip(i as int),
            i + j <= t.len(),
            k <= j,
            out@ == u.subrange(0, k as int),
        decreases j - k,
    {
        push_char(&mut out, cs[i + k]);
        k = k + 1;
    }
    assert(out@ =~= u.take(j as int));
    out
}

proof fn lemma_strip_start_skip(s: Seq<char>, c: char, i: int)
    requires
        0 <= i < s.len(),
        s[i] == c,
    ensures
        strip_char_start(s.skip(i), c) == strip_char_start(s.skip(i + 1), c),
{
    assert(s.skip(i).drop_first() =~= s.skip(i + 1));
}

proof fn lemma_strip_end_take(s: Seq<char>, c: char, j: int)
    requires
        0 < j <= s.len(),
        s[j - 1] == c,
    ensures
        strip_char_end(s.take(j), c) == strip_char_end(s.take(j - 1), c),
{
    assert(s.take(j).drop_last() =~= s.take(j - 1));
}

/// `s` without its leading and trailing occurrences of `c` (`str::trim_matches`).
pub fn trim_matches(s: &str, c: char) -> (r: String)
    ensures
        r@ == strip_char(s@, c),
{
    let cs = chars_of(s);
    let ghost t = cs@;
    let mut i: usize = 0;
    assert(t.skip(0) =~= t);
    while i < cs.len() && cs[i] == c
        invariant
            cs@ == t,
            i <= t.len(),
            strip_char_start(t, c) == strip_char_start(t.skip(i as int), c),
        decreases t.len() - i,
    {
        proof { lemma_strip_start_skip(t, c, i as int); }
        i = i + 1;
    }
    let ghost u = t.skip(i as int);
    assert(strip_char_start(t, c) == u);
    let mut j: usize = cs.len() - i;
    assert(u.take(j as int) =~= u);
    let n0 = cs.len();
    while j > 0 && cs[i + j - 1] == c
        invariant
            n0 == t.len(),
            cs@ == t,
            u == t.skip(i as int),
            i <= t.len(),
            j <= u.len(),
            i + j <= cs@.len(),
            strip_char_end(u, c) == strip_char_end(u.take(j as int), c),
        decreases j,
    {
        proof { lemma_strip_end_take(u, c, j as int); }
        j = j - 1;
    }
    assert(strip_char_end(u.take(j as int), c) == u.take(j as int));
    let out = sub_string(&cs, i, i + j);
    assert(out@ =~= u.take(j as int));
    out
}

/// Whether `s` starts with `p`.
pub fn starts_with(s: &str, p: &str) -> (r: bool)
    ensures
        r == has_prefix(s@, p@),
{
    let a = chars_of(s);
    let b = chars_of(p);
    if b.len() > a.len() {
        return false;
    }
    let mut i: usize = 0;
    while i < b.len()
        invariant
            a@ == s@,
            b@ == p@,
            b@.len() <= a@.len(),
            i <= b@.len(),
            forall|j: int| 0 <= j < i ==> a@[j] == b@[j],
        decreases b@.len() - i,
    {
        if a[i] != b[i] {
            assert(s@.subrange(0, p@.len() as int)[i as int] != p@[i as int]);
            return false;
        }
        i = i + 1;
    }
    assert(s@.subrange(0, p@.len() as int) =~= p@);
    true
}

/// `s` after the prefix `p`, when `s` starts with `p` (`str::strip_prefix`).
pub fn strip_prefix(s: &str, p: &str) -> (r: Option<String>)
    ensures
        match r {
            Some(t) => has_prefix(s@, p@) && t@ == s@.skip(p@.len() as int),
            None => !has_prefix(s@, p@),
        },
{
    if starts_with(s, p) {
        let cs = chars_of(s);
        let k = chars_of(p).len();
        let t = sub_string(&cs, k, cs.len());
        assert(t@ =~= s@.skip(p@.len() as int));
        Some(t)
    } else {
        None
    }
}

/// Whether `p` occurs in `s` at position `i` (over characters).
pub fn occurs_at_exec(s: &Vec<char>, p: &Vec<char>, i: usize) -> (r: bool)
    ensures
        r == occurs_at(s@, p@, i as int),
{
    if i > s.len() || p.len() > s.len() - i {
        return false;
    }
    let mut j: usize = 0;
    let n = s.len();
    while j < p.len()
        invariant
            n == s@.len(),
            i + p@.len() <= s@.len(),
            j <= p@.len(),
            forall|k: int| 0 <= k < j ==> s@[i + k] == p@[k],
        decreases p@.len() - j,
    {
        if s[i + j] != p[j] {
            assert(s@.subrange(i as int, i + p@.len())[j as int] != p@[j as int]);
            return false;
        }
        j = j + 1;
    }
    assert(s@.subrange(i as int, i + p@.len()) =~= p@);
    true
}

/// The first position at or after `from` where `p` occurs in `s`.
pub fn find_from_exec(s: &Vec<char>, p: &Vec<char>, from: usize) -> (r: Option<usize>)
    ensures
        match r {
            Some(i) => find_from(s@, p@, from as int) == Some(i as int),
            None => find_from(s@, p@, from as int) is None,
        },
    decreases s@.len() + 1 - from,
{
    if from > s.len() || p.len() > s.len() - from {
        return None;
    }
    if p.len() == 0 {
        assert(s@.subrange(from as int, from as int) =~= p@);
        return Some(from);
    }
    if occurs_at_exec(s, p, from) {
        Some(from)
    } else {
        find_from_exec(s, p, from + 1)
    }
}

pub proof fn lemma_find_from_none(s: Seq<char>, p: Seq<char>, i: int)
    requires
        0 <= i,
        find_from(s, p, i) is None,
    ensures
        forall|j: int| i <= j ==> !occurs_at(s, p, j),
    decreases s.len() + 1 - i,
{
    if i + p.len() <= s.len() {
        lemma_find_from_none(s, p, i + 1);
    }
}

pub proof fn lemma_find_from_some(s: Seq<char>, p: Seq<char>, i: int)
    requires
        0 <= i,
        find_from(s, p, i) is Some,
    ensures
        occurs_at(s, p, find_from(s, p, i)->0),
        i <= find_from(s, p, i)->0,
        forall|j: int| i <= j < find_from(s, p, i)->0 ==> !occurs_at(s, p, j),
    decreases s.len() + 1 - i,
{
    if !occurs_at(s, p, i) {
        lemma_find_from_some(s, p, i + 1);
    }
}

/// `find_from(s, p, 0)` is the first occurrence.
pub proof fn lemma_find_first(s: Seq<char>, p: Seq<char>)
    ensures
        find_from(s, p, 0) is None <==> !has_substr(s, p),
        find_from(s, p, 0) is Some ==> occurs_at(s, p, find_from(s, p, 0)->0),
        find_from(s, p, 0) is Some ==> forall|j: int|
            0 <= j < find_from(s, p, 0)->0 ==> !occurs_at(s, p, j),
{
    if find_from(s, p, 0) is None {
        lemma_find_from_none(s, p, 0);
    } else {
        lemma_find_from_some(s, p, 0);
    }
}

/// Whether `p` occurs in `s` (`str::contains`).
pub fn contains(s: &str, p: &str) -> (r: bool)
    ensures
        r == has_substr(s@, p@),
{
    let a = chars_of(s);
    let b = chars_of(p);
    proof { lemma_find_first(s@, p@); }
    match find_from_exec(&a, &b, 0) {
        Some(_) => true,
        None => false,
    }
}

/// Whether `c` occurs in `s`.
pub fn contains_char(s: &str, c: char) -> (r: bool)
    ensures
        r == has_char(s@, c),
{
    let a = chars_of(s);
    let mut i: usize = 0;
    while i < a.len()
        invariant
            a@ == s@,
            i <= a@.len(),
            forall|j: int| 0 <= j < i ==> a@[j] != c,
        decreases a@.len() - i,
    {
        if a[i] == c {
            return true;
        }
        i = i + 1;
    }
    false
}

/// `s` with every `c` replaced by `rep`.
pub fn replace_char_exec(s: &str, c: char, rep: &str) -> (r: String)
    ensures
        r@ == replace_char(s@, c, rep@),
{
    let a = chars_of(s);
    let mut out = String::new();
    let mut i: usize = 0;
    while i < a.len()
        invariant
            a@ == s@,
            i <= a@.len(),
            out@ == replace_char(s@.subrange(0, i as int), c, rep@),
        decreases a@.len() - i,
    {
        assert(s@.subrange(0, i + 1).drop_last() =~= s@.subrange(0, i as int));
        if a[i] == c {
            push_str(&mut out, rep);
        } else {
            push_char(&mut out, a[i]);
            assert(seq![a@[i as int]] =~= Seq::<char>::empty().push(a@[i as int]));
        }
        i = i + 1;
    }
    assert(s@.subrange(0, a@.len() as int) =~= s@);
    out
}

fn digit_char(d: u64) -> (c: char)
    requires
        d < 10,
    ensures
        c == digit(d as nat),
{
    if d == 0 { '0' }
    else if d == 1 { '1' }
    else if d == 2 { '2' }
    else if d == 3 { '3' }
    else if d == 4 { '4' }
    else if d == 5 { '5' }
    else if d == 6 { '6' }
    else if d == 7 { '7' }
    else if d == 8 { '8' }
    else { '9' }
}

/// Appends the decimal representation of `n` to `s`.
pub fn push_decimal(s: &mut String, n: u64)
    ensures
        final(s)@ == old(s)@ + decimal(n as nat),
    decreases n,
{
    if n >= 10 {
        push_decimal(s, n / 10);
    }
    push_char(s, digit_char(n % 10));
    assert(decimal(n as nat) == if n < 10 { seq![digit(n as nat)] } else { decimal((n / 10) as nat).push(digit((n % 10) as nat)) });
}

/// The decimal representation of `n` (`u64::to_string`).
pub fn u64_to_string(n: u64) -> (r: String)
    ensures
        r@ == decimal(n as nat),
{
    let mut s = String::new();
    push_decimal(&mut s, n);
    assert(s@ =~= decimal(n as nat));
    s
}

/// The decimal representation of `n` (`usize::to_string`).
pub fn usize_to_string(n: usize) -> (r: String)
    ensures
        r@ == decimal(n as nat),
{
    u64_to_string(n as u64)
}

/// The decimal representation of an integer, with `-` before a negative one.
pub open spec fn int_text(n: int) -> Seq<char> {
    if n < 0 {
        "-"@ + decimal((-n) as nat)
    } else {
        decimal(n as nat)
    }
}

/// The decimal representation of `n` (`i64::to_string`).
pub fn i64_to_string(n: i64) -> (r: String)
    ensures
        r@ == int_text(n as int),
{
    if n < 0 {
        let m: i128 = -(n as i128);
        let mut s = String::from_str("-");
        push_decimal(&mut s, m as u64);
        s
    } else {
        u64_to_string(n as u64)
    }
}

/// `c` repeated `n` times.
pub fn repeat(c: char, n: usize) -> (r: String)
    ensures
        r@ == repeat_char(c, n as nat),
{
    let mut s = String::new();
    let mut i: usize = 0;
    while i < n
        invariant
            i <= n,
            s@ == repeat_char(c, i as nat),
        decreases n - i,
    {
        push_char(&mut s, c);
        i = i + 1;
        assert(s@ =~= repeat_char(c, i as nat));
    }
    s
}

/// The strings joined with `sep` between them.
pub fn join_strings(parts: &Vec<String>, sep: &str) -> (r: String)
    ensures
        r@ == join(parts@.map_values(|p: String| p@), sep@),
{
    let ghost ps = parts@.map_values(|p: String| p@);
    let mut out = String::new();
    let mut i: usize = 0;
    while i < parts.len()
        invariant
            ps == parts@.map_values(|p: String| p@),
            i <= parts@.len(),
            out@ == join(ps.take(i as int), sep@),
        decreases parts@.len() - i,
    {
        assert(ps.take(i + 1).drop_last() =~= ps.take(i as int));
        if i > 0 {
            push_str(&mut out, sep);
        }
        push_str(&mut out, parts[i].as_str());
        proof {
            if i == 0 {
                assert(ps.take(1).len() == 1);
                assert(out@ =~= ps.take(1)[0]);
            }
        }
        i = i + 1;
    }
    assert(ps.take(parts@.len() as int) =~= ps);
    out
}

/// Whether `a` comes before or equals `b` in lexicographic order.
pub fn lex_le_exec(a: &Vec<char>, b: &Vec<char>) -> (r: bool)
    ensures
        r == lex_le(a@, b@),
{
    let mut i: usize = 0;
    assert(a@.skip(0) =~= a@);
    assert(b@.skip(0) =~= b@);
    while i < a.len() && i < b.len() && a[i] == b[i]
        invariant
            i <= a@.len(),
            i <= b@.len(),
            lex_le(a@, b@) == lex_le(a@.skip(i as int), b@.skip(i as int)),
        decreases a@.len() - i,
    {
        assert(a@.skip(i as int).drop_first() =~= a@.skip(i + 1));
        assert(b@.skip(i as int).drop_first() =~= b@.skip(i + 1));
        i = i + 1;
    }
    if i == a.len() {
        true
    } else if i == b.len() {
        false
    } else {
        a[i] < b[i]
    }
}

/// The views of a vector of character vectors.
pub open spec fn char_views(v: Seq<Vec<char>>) -> Seq<Seq<char>> {
    v.map_values(|x: Vec<char>| x@)
}

/// `r` lists each index of `keys` once, in lexicographic order of the keys.
pub open spec fn sorted_order(keys: Seq<Seq<char>>, r: Seq<usize>) -> bool {
    &&& r.len() == keys.len()
    &&& r.no_duplicates()
    &&& forall|i: int| 0 <= i < r.len() ==> (#[trigger] r[i] as int) < keys.len()
    &&& forall|k: usize| (k as int) < keys.len() ==> #[trigger] r.contains(k)
    &&& forall|i: int, j: int|
        0 <= i <= j < r.len() ==> lex_le(keys[#[trigger] r[i] as int], keys[#[trigger] r[j] as int])
}

/// The indices of `keys`, sorted by key (a stable insertion sort).
pub fn sort_indices(keys: &Vec<Vec<char>>) -> (r: Vec<usize>)
    ensures
        sorted_order(char_views(keys@), r@),
{
    let ghost ks = char_views(keys@);
    let mut r: Vec<usize> = Vec::new();
    let mut i: usize = 0;
    while i < keys.len()
        invariant
            ks == char_views(keys@),
            i <= keys@.len(),
            r@.len() == i,
            r@.no_duplicates(),
            forall|a: int| 0 <= a < r@.len() ==> (#[trigger] r@[a] as int) < i,
            forall|k: usize| k < i ==> #[trigger] r@.contains(k),
            forall|a: int, b: int|
                0 <= a <= b < r@.len() ==> lex_le(ks[#[trigger] r@[a] as int], ks[#[trigger] r@[b] as int]),
        decreases keys@.len() - i,
    {
        let mut p: usize = 0;
        while p < r.len() && lex_le_exec(&keys[r[p]], &keys[i])
            invariant
                ks == char_views(keys@),
                i < keys@.len(),
                p <= r@.len(),
                forall|a: int| 0 <= a < r@.len() ==> (#[trigger] r@[a] as int) < i,
                forall|a: int| 0 <= a < p ==> lex_le(ks[#[trigger] r@[a] as int], ks[i as int]),
            decreases r@.len() - p,
        {
            p = p + 1;
        }
        let ghost old_r = r@;
        proof {
            if p < old_r.len() {
                lemma_lex_total(ks[old_r[p as int] as int], ks[i as int]);
            }
        }
        r.insert(p, i);
        proof {
            old_r.insert_ensures(p as int, i);
            assert(r@ == old_r.insert(p as int, i));
            assert forall|a: int| 0 <= a < r@.len() implies (#[trigger] r@[a] as int) < i + 1 by {
                if a < p {
                    assert(r@[a] == old_r[a]);
                } else if a > p {
                    assert(r@[a] == old_r[a - 1]);
                }
            }
            assert forall|k: usize| k < i + 1 implies #[trigger] r@.contains(k) by {
                if k == i {
                    assert(r@[p as int] == k);
                } else {
                    assert(old_r.contains(k));
                    let a = choose|a: int| 0 <= a < old_r.len() && old_r[a] == k;
                    if a < p {
                        assert(r@[a] == old_r[a]);
                    } else {
                        assert(r@[a + 1] == old_r[a]);
                    }
                }
            }
            assert forall|a: int, b: int| 0 <= a < b < r@.len() implies r@[a] != r@[b] by {
                if a < p && b < p {
                    assert(r@[a] == old_r[a] && r@[b] == old_r[b]);
                } else if a < p && b == p {
                    assert(r@[a] == old_r[a]);
                } else if a < p && b > p {
                    assert(r@[a] == old_r[a] && r@[b] == old_r[b - 1]);
                } else if a == p {
                    assert(r@[b] == old_r[b - 1]);
                } else {
                    assert(r@[a] == old_r[a - 1] && r@[b] == old_r[b - 1]);
                }
            }
            assert forall|a: int, b: int|
                0 <= a <= b < r@.len() implies lex_le(ks[#[trigger] r@[a] as int], ks[#[trigger] r@[b] as int]) by {
                let ka = ks[r@[a] as int];
                let kb = ks[r@[b] as int];
                if a == b {
                    lemma_lex_refl(ka);
                } else if b < p {
                    assert(r@[a] == old_r[a] && r@[b] == old_r[b]);
                } else if b == p {
                    assert(r@[a] == old_r[a]);
                } else if a < p {
                    // a < p < b: ka <= key_i <= old_r[p] <= kb
                    assert(r@[a] == old_r[a] && r@[b] == old_r[b - 1]);
                    assert(lex_le(ka, ks[i as int]));
                    assert(lex_le(ks[i as int], ks[old_r[p as int] as int]));
                    assert(lex_le(ks[old_r[p as int] as int], kb));
                    lemma_lex_trans(ks[i as int], ks[old_r[p as int] as int], kb);
                    lemma_lex_trans(ka, ks[i as int], kb);
                } else if a == p {
                    assert(r@[b] == old_r[b - 1]);
                    assert(lex_le(ks[i as int], ks[old_r[p as int] as int]));
                    assert(lex_le(ks[old_r[p as int] as int], kb));
                    lemma_lex_trans(ks[i as int], ks[old_r[p as int] as int], kb);
                } else {
                    assert(r@[a] == old_r[a - 1] && r@[b] == old_r[b - 1]);
                }
            }
        }
        i = i + 1;
    }
    r
}

/// `a` comes no later than `b`.
pub open spec fn stamp_le(a: u64, b: u64) -> bool {
    a <= b
}

/// `r` lists each index of `stamps` once, in nondecreasing order of the stamps.
pub open spec fn sorted_by_stamp(stamps: Seq<u64>, r: Seq<usize>) -> bool {
    &&& r.len() == stamps.len()
    &&& r.no_duplicates()
    &&& forall|i: int| 0 <= i < r.len() ==> (#[trigger] r[i] as int) < stamps.len()
    &&& forall|k: usize| (k as int) < stamps.len() ==> #[trigger] r.contains(k)
    &&& forall|i: int, j: int|
        0 <= i <= j < r.len() ==> stamp_le(stamps[#[trigger] r[i] as int], stamps[#[trigger] r[j] as int])
}

/// The indices of `keys`, sorted by stamp (a stable insertion sort).
pub fn sort_by_stamp(keys: &Vec<u64>) -> (r: Vec<usize>)
    ensures
        sorted_by_stamp(keys@, r@),
{
    let ghost ks = keys@;
    let mut r: Vec<usize> = Vec::new();
    let mut i: usize = 0;
    while i < keys.len()
        invariant
            ks == keys@,
            i <= keys@.len(),
            r@.len() == i,
            r@.no_duplicates(),
            forall|a: int| 0 <= a < r@.len() ==> (#[trigger] r@[a] as int) < i,
            forall|k: usize| k < i ==> #[trigger] r@.contains(k),
            forall|a: int, b: int|
                0 <= a <= b < r@.len() ==> stamp_le(ks[#[trigger] r@[a] as int], ks[#[trigger] r@[b] as int]),
        decreases keys@.len() - i,
    {
        let mut p: usize = 0;
        while p < r.len() && keys[r[p]] <= keys[i]
            invariant
                ks == keys@,
                i < keys@.len(),
                p <= r@.len(),
                forall|a: int| 0 <= a < r@.len() ==> (#[trigger] r@[a] as int) < i,
                forall|a: int| 0 <= a < p ==> stamp_le(ks[#[trigger] r@[a] as int], ks[i as int]),
            decreases r@.len() - p,
        {
            p = p + 1;
        }
        let ghost old_r = r@;
        r.insert(p, i);
        proof {
            old_r.insert_ensures(p as int, i);
            assert(r@ == old_r.insert(p as int, i));
            assert forall|a: int| 0 <= a < r@.len() implies (#[trigger] r@[a] as int) < i + 1 by {
                if a < p {
                    assert(r@[a] == old_r[a]);
                } else if a > p {
                    assert(r@[a] == old_r[a - 1]);
                }
            }
            assert forall|k: usize| k < i + 1 implies #[trigger] r@.contains(k) by {
                if k == i {
                    assert(r@[p as int] == k);
                } else {
                    assert(old_r.contains(k));
                    let a = choose|a: int| 0 <= a < old_r.len() && old_r[a] == k;
                    if a < p {
                        assert(r@[a] == old_r[a]);
                    } else {
                        assert(r@[a + 1] == old_r[a]);
                    }
                }
            }
            assert forall|a: int, b: int| 0 <= a < b < r@.len() implies r@[a] != r@[b] by {
                if a < p && b < p {
                    assert(r@[a] == old_r[a] && r@[b] == old_r[b]);
                } else if a < p && b == p {
                    assert(r@[a] == old_r[a]);
                } else if a < p && b > p {
                    assert(r@[a] == old_r[a] && r@[b] == old_r[b - 1]);
                } else if a == p {
                    assert(r@[b] == old_r[b - 1]);
                } else {
                    assert(r@[a] == old_r[a - 1] && r@[b] == old_r[b - 1]);
                }
            }
            assert forall|a: int, b: int|
                0 <= a <= b < r@.len() implies stamp_le(ks[#[trigger] r@[a] as int], ks[#[trigger] r@[b] as int]) by {
                let ka = ks[r@[a] as int];
                let kb = ks[r@[b] as int];
                if a == b {
                } else if b < p {
                    assert(r@[a] == old_r[a] && r@[b] == old_r[b]);
                } else if b == p {
                    assert(r@[a] == old_r[a]);
                } else if a < p {
                    // a < p < b: ka <= key_i <= old_r[p] <= kb
                    assert(r@[a] == old_r[a] && r@[b] == old_r[b - 1]);
                    assert(stamp_le(ka, ks[i as int]));
                    assert(stamp_le(ks[i as int], ks[old_r[p as int] as int]));
                    assert(stamp_le(ks[old_r[p as int] as int], kb));
                } else if a == p {
                    assert(r@[b] == old_r[b - 1]);
                    assert(stamp_le(ks[i as int], ks[old_r[p as int] as int]));
                    assert(stamp_le(ks[old_r[p as int] as int], kb));
                } else {
                    assert(r@[a] == old_r[a - 1] && r@[b] == old_r[b - 1]);
                }
            }
        }
        i = i + 1;
    }
    r
}

/// `a` comes no later than `b`.
pub open spec fn time_le(a: i64, b: i64) -> bool {
    a <= b
}

/// `r` lists each index of `times` once, in nondecreasing order of the times.
pub open spec fn sorted_by_time(times: Seq<i64>, r: Seq<usize>) -> bool {
    &&& r.len() == times.len()
    &&& r.no_duplicates()
    &&& forall|i: int| 0 <= i < r.len() ==> (#[trigger] r[i] as int) < times.len()
    &&& forall|k: usize| (k as int) < times.len() ==> #[trigger] r.contains(k)
    &&& forall|i: int, j: int|
        0 <= i <= j < r.len() ==> time_le(times[#[trigger] r[i] as int], times[#[trigger] r[j] as int])
}

/// The indices of `keys`, sorted by time (a stable insertion sort).
pub fn sort_by_time(keys: &Vec<i64>) -> (r: Vec<usize>)
    ensures
        sorted_by_time(keys@, r@),
{
    let ghost ks = keys@;
    let mut r: Vec<usize> = Vec::new();
    let mut i: usize = 0;
    while i < keys.len()
        invariant
            ks == keys@,
            i <= keys@.len(),
            r@.len() == i,
            r@.no_duplicates(),
            forall|a: int| 0 <= a < r@.len() ==> (#[trigger] r@[a] as int) < i,
            forall|k: usize| k < i ==> #[trigger] r@.contains(k),
            forall|a: int, b: int|
                0 <= a <= b < r@.len() ==> time_le(ks[#[trigger] r@[a] as int], ks[#[trigger] r@[b] as int]),
        decreases keys@.len() - i,
    {
        let mut p: usize = 0;
        while p < r.len() && keys[r[p]] <= keys[i]
            invariant
                ks == keys@,
                i < keys@.len(),
                p <= r@.len(),
                forall|a: int| 0 <= a < r@.len() ==> (#[trigger] r@[a] as int) < i,
                forall|a: int| 0 <= a < p ==> time_le(ks[#[trigger] r@[a] as int], ks[i as int]),
            decreases r@.len() - p,
        {
            p = p + 1;
        }
        let ghost old_r = r@;
        r.insert(p, i);
        proof {
            old_r.insert_ensures(p as int, i);
            assert(r@ == old_r.insert(p as int, i));
            assert forall|a: int| 0 <= a < r@.len() implies (#[trigger] r@[a] as int) < i + 1 by {
                if a < p {
                    assert(r@[a] == old_r[a]);
                } else if a > p {
                    assert(r@[a] == old_r[a - 1]);
                }
            }
            assert forall|k: usize| k < i + 1 implies #[trigger] r@.contains(k) by {
                if k == i {
                    assert(r@[p as int] == k);
                } else {
                    assert(old_r.contains(k));
                    let a = choose|a: int| 0 <= a < old_r.len() && old_r[a] == k;
                    if a < p {
                        assert(r@[a] == old_r[a]);
                    } else {
                        assert(r@[a + 1] == old_r[a]);
                    }
                }
            }
            assert forall|a: int, b: int| 0 <= a < b < r@.len() implies r@[a] != r@[b] by {
                if a < p && b < p {
                    assert(r@[a] == old_r[a] && r@[b] == old_r[b]);
                } else if a < p && b == p {
                    assert(r@[a] == old_r[a]);
                } else if a < p && b > p {
                    assert(r@[a] == old_r[a] && r@[b] == old_r[b - 1]);
                } else if a == p {
                    assert(r@[b] == old_r[b - 1]);
                } else {
                    assert(r@[a] == old_r[a - 1] && r@[b] == old_r[b - 1]);
                }
            }
            assert forall|a: int, b: int|
                0 <= a <= b < r@.len() implies time_le(ks[#[trigger] r@[a] as int], ks[#[trigger] r@[b] as int]) by {
                let ka = ks[r@[a] as int];
                let kb = ks[r@[b] as int];
                if a == b {
                } else if b < p {
                    assert(r@[a] == old_r[a] && r@[b] == old_r[b]);
                } else if b == p {
                    assert(r@[a] == old_r[a]);
                } else if a < p {
                    // a < p < b: ka <= key_i <= old_r[p] <= kb
                    assert(r@[a] == old_r[a] && r@[b] == old_r[b - 1]);
                    assert(time_le(ka, ks[i as int]));
                    assert(time_le(ks[i as int], ks[old_r[p as int] as int]));
                    assert(time_le(ks[old_r[p as int] as int], kb));
                } else if a == p {
                    assert(r@[b] == old_r[b - 1]);
                    assert(time_le(ks[i as int], ks[old_r[p as int] as int]));
                    assert(time_le(ks[old_r[p as int] as int], kb));
                } else {
                    assert(r@[a] == old_r[a - 1] && r@[b] == old_r[b - 1]);
                }
            }
        }
        i = i + 1;
    }
    r
}

} // verus!
