//! Splitting text into lines, and reading unsigned decimal numbers.

use vstd::prelude::*;
use crate::text::{chars_of, decimal, digit, string_of, sub_string};

verus! {

/// `l` without one trailing carriage return.
pub open spec fn strip_cr(l: Seq<char>) -> Seq<char> {
    if l.len() > 0 && l.last() == '\r' {
        l.drop_last()
    } else {
        l
    }
}

/// Reading `s` from the start: the lines ended by a newline so far (each without
/// a carriage return before the newline), and the text after the last newline.
pub open spec fn split_state(s: Seq<char>) -> (Seq<Seq<char>>, Seq<char>)
    decreases s.len(),
{
    if s.len() == 0 {
        (Seq::empty(), Seq::empty())
    } else {
        let st = split_state(s.drop_last());
        if s.last() == '\n' {
            (st.0.push(strip_cr(st.1)), Seq::empty())
        } else {
            (st.0, st.1.push(s.last()))
        }
    }
}

/// The lines of `s` (`str::lines`): split at `\n` or `\r\n`; a last line
/// without a newline counts when it is not empty.
pub open spec fn lines_of(s: Seq<char>) -> Seq<Seq<char>> {
    let st = split_state(s);
    if st.1.len() > 0 {
        st.0.push(st.1)
    } else {
        st.0
    }
}

/// Appending text without a newline extends the current line.
pub proof fn lemma_split_no_newline(p: Seq<char>, q: Seq<char>)
    requires
        forall|i: int| 0 <= i < q.len() ==> q[i] != '\n',
    ensures
        split_state(p + q) == (split_state(p).0, split_state(p).1 + q),
    decreases q.len(),
{
    if q.len() == 0 {
        assert(p + q =~= p);
        assert(split_state(p).1 + q =~= split_state(p).1);
    } else {
        let q2 = q.drop_last();
        lemma_split_no_newline(p, q2);
        assert((p + q).drop_last() =~= p + q2);
        assert((split_state(p).1 + q2).push(q.last()) =~= split_state(p).1 + q);
    }
}

/// Appending a newline ends the current line.
pub proof fn lemma_split_newline(p: Seq<char>)
    ensures
        split_state(p.push('\n')) == (split_state(p).0.push(strip_cr(split_state(p).1)), Seq::<char>::empty()),
{
    assert(p.push('\n').drop_last() =~= p);
}

/// The lines of text made of newline-free lines, each ended by a newline.
pub proof fn lemma_lines_of_joined(p: Seq<char>, l: Seq<char>)
    requires
        split_state(p).1.len() == 0,
        forall|i: int| 0 <= i < l.len() ==> l[i] != '\n',
    ensures
        split_state(p + l + "\n"@) == (split_state(p).0.push(strip_cr(l)), Seq::<char>::empty()),
{
    reveal_strlit("\n");
    lemma_split_no_newline(p, l);
    assert(split_state(p).1 + l =~= l);
    assert(p + l + "\n"@ =~= (p + l).push('\n'));
    lemma_split_newline(p + l);
}

/// Each character of `s` in turn; lines are collected as in `lines_of`.
pub fn lines(s: &str) -> (r: Vec<String>)
    ensures
        r@.map_values(|x: String| x@) == lines_of(s@),
{
    let cs = chars_of(s);
    let n = cs.len();
    let mut done: Vec<String> = Vec::new();
    let mut cur: Vec<char> = Vec::new();
    let mut i: usize = 0;
    assert(s@.take(0) =~= Seq::<char>::empty());
    while i < n
        invariant
            cs@ == s@,
            n == cs@.len(),
            i <= n,
            done@.map_values(|x: String| x@) == split_state(s@.take(i as int)).0,
            cur@ == split_state(s@.take(i as int)).1,
        decreases n - i,
    {
        assert(s@.take(i + 1).drop_last() =~= s@.take(i as int));
        let c = cs[i];
        if c == '\n' {
            let m = cur.len();
            let line = if m > 0 && cur[m - 1] == '\r' {
                let l = sub_string(&cur, 0, m - 1);
                assert(l@ =~= cur@.drop_last());
                l
            } else {
                string_of(cur.as_slice())
            };
            let ghost before = done@;
            done.push(line);
            assert(done@.map_values(|x: String| x@) =~= before.map_values(|x: String| x@).push(line@));
            cur = Vec::new();
            assert(cur@ =~= Seq::<char>::empty());
        } else {
            cur.push(c);
        }
        i = i + 1;
    }
    assert(s@.take(n as int) =~= s@);
    if cur.len() > 0 {
        let ghost before = done@;
        let last = string_of(cur.as_slice());
        done.push(last);
        assert(done@.map_values(|x: String| x@) =~= before.map_values(|x: String| x@).push(last@));
    }
    done
}

/// A decimal digit.
pub open spec fn is_digit(c: char) -> bool {
    '0' <= c && c <= '9'
}

/// The value of a decimal digit.
pub open spec fn digit_value(c: char) -> nat {
    ((c as int) - ('0' as int)) as nat
}

/// The value of a string of decimal digits.
pub open spec fn digits_value(s: Seq<char>) -> nat
    decreases s.len(),
{
    if s.len() == 0 {
        0
    } else {
        digits_value(s.drop_last()) * 10 + digit_value(s.last())
    }
}

/// The digits of `s`, after one optional leading `+`.
pub open spec fn unsigned_digits(s: Seq<char>) -> Seq<char> {
    if s.len() > 0 && s[0] == '+' {
        s.drop_first()
    } else {
        s
    }
}

/// What `s.parse::<u64>()` gives: a value for an optional `+` followed by one or
/// more decimal digits whose value fits in a `u64`.
pub open spec fn parse_u64(s: Seq<char>) -> Option<u64> {
    let d = unsigned_digits(s);
    if d.len() > 0 && (forall|i: int| 0 <= i < d.len() ==> is_digit(#[trigger] d[i])) && digits_value(d) <= u64::MAX {
        Some(digits_value(d) as u64)
    } else {
        None
    }
}

proof fn lemma_digits_prefix(d: Seq<char>, i: int)
    requires
        0 <= i <= d.len(),
        forall|k: int| 0 <= k < d.len() ==> is_digit(#[trigger] d[k]),
    ensures
        digits_value(d.take(i)) <= digits_value(d),
    decreases d.len() - i,
{
    if i < d.len() {
        lemma_digits_prefix(d, i + 1);
        assert(d.take(i + 1).drop_last() =~= d.take(i));
    } else {
        assert(d.take(i) =~= d);
    }
}

/// Parses an unsigned decimal number as `str::parse::<u64>` does.
pub fn parse_u64_exec(s: &str) -> (r: Option<u64>)
    ensures
        r == parse_u64(s@),
{
    let cs = chars_of(s);
    let start: usize = if cs.len() > 0 && cs[0] == '+' { 1 } else { 0 };
    let ghost d = unsigned_digits(s@);
    assert(d =~= cs@.skip(start as int));
    if start >= cs.len() {
        return None;
    }
    let mut v: u64 = 0;
    let mut i: usize = start;
    assert(d.take(0) =~= Seq::<char>::empty());
    while i < cs.len()
        invariant
            cs@ == s@,
            d == cs@.skip(start as int),
            d == unsigned_digits(s@),
            start <= i <= cs@.len(),
            forall|k: int| 0 <= k < i - start ==> is_digit(#[trigger] d[k]),
            v == digits_value(d.take(i - start)),
        decreases cs@.len() - i,
    {
        let c = cs[i];
        assert(c == d[i - start]);
        if !('0' <= c && c <= '9') {
            assert(!is_digit(d[i - start]));
            return None;
        }
        let dv = (c as u32 - '0' as u32) as u64;
        assert(dv == digit_value(c));
        assert(d.take(i - start + 1).drop_last() =~= d.take(i - start));
        if v > (u64::MAX - dv) / 10 {
            proof {
                assert(d.take(i - start + 1).last() == c);
                assert(digits_value(d.take(i - start + 1)) == v * 10 + dv);
                assert(digits_value(d.take(i - start + 1)) > u64::MAX) by (nonlinear_arith)
                    requires
                        v > (u64::MAX - dv) / 10,
                        digits_value(d.take(i - start + 1)) == v * 10 + dv,
                        dv <= 9,
                ;
                if forall|k: int| 0 <= k < d.len() ==> is_digit(#[trigger] d[k]) {
                    lemma_digits_prefix(d, i - start + 1);
                    assert(digits_value(d) > u64::MAX);
                }
                assert(parse_u64(s@) is None);
            }
            return None;
        }
        assert(d.take(i - start + 1).last() == c);
        assert(v * 10 + dv <= u64::MAX) by (nonlinear_arith)
            requires
                v <= (u64::MAX - dv) / 10,
                dv <= 9,
        ;
        v = v * 10 + dv;
        i = i + 1;
    }
    assert(d.take(d.len() as int) =~= d);
    Some(v)
}

/// The decimal text of `n` reads back as `n`.
pub proof fn lemma_parse_decimal(n: u64)
    ensures
        parse_u64(decimal(n as nat)) == Some(n),
{
    lemma_decimal_digits(n as nat);
    assert(is_digit(decimal(n as nat)[0]));
}

proof fn lemma_digit(n: nat)
    requires
        n < 10,
    ensures
        digit_value(digit(n)) == n,
        is_digit(digit(n)),
        digit(n) != '+',
{
    if n == 0 {
        assert(digit(n) == '0');
    } else if n == 1 {
        assert(digit(n) == '1');
    } else if n == 2 {
        assert(digit(n) == '2');
    } else if n == 3 {
        assert(digit(n) == '3');
    } else if n == 4 {
        assert(digit(n) == '4');
    } else if n == 5 {
        assert(digit(n) == '5');
    } else if n == 6 {
        assert(digit(n) == '6');
    } else if n == 7 {
        assert(digit(n) == '7');
    } else if n == 8 {
        assert(digit(n) == '8');
    } else {
        assert(digit(n) == '9');
    }
}

pub proof fn lemma_decimal_digits(n: nat)
    ensures
        digits_value(decimal(n)) == n,
        decimal(n).len() > 0,
        forall|i: int| 0 <= i < decimal(n).len() ==> is_digit(#[trigger] decimal(n)[i]),
    decreases n,
{
    lemma_digit(n % 10);
    if n < 10 {
        assert(n % 10 == n);
        assert(decimal(n) == seq![digit(n)]);
        assert(seq![digit(n)].drop_last() =~= Seq::<char>::empty());
        assert(digits_value(Seq::<char>::empty()) == 0);
        assert(digits_value(seq![digit(n)]) == digits_value(Seq::<char>::empty()) * 10 + digit_value(digit(n)));
    } else {
        lemma_decimal_digits(n / 10);
        let p = decimal(n / 10);
        assert(decimal(n) == p.push(digit(n % 10)));
        assert(p.push(digit(n % 10)).drop_last() =~= p);
        assert(digits_value(decimal(n)) == (n / 10) * 10 + n % 10);
        assert forall|i: int| 0 <= i < decimal(n).len() implies is_digit(#[trigger] decimal(n)[i]) by {
            if i < p.len() {
                assert(decimal(n)[i] == p[i]);
            }
        }
    }
}

} // verus!
