//! Scanning a line of text: runs of characters of one class, decimal
//! numbers and literal pieces, each located by character position.
use vstd::prelude::*;
use vstd::string::StrSliceExecFns;

verus! {

/// The classes of characters that runs are made of.
#[derive(Clone, Copy, Debug, PartialEq, Eq, Structural)]
pub enum CharClass {
    /// `0` to `9`.
    Digit,
    /// ASCII letters and `_`.
    Ident,
    /// Anything but a double quote.
    Text,
}

/// Whether `c` belongs to class `k`.
pub open spec fn in_class(c: char, k: CharClass) -> bool {
    match k {
        CharClass::Digit => '0' <= c && c <= '9',
        CharClass::Ident => ('a' <= c && c <= 'z') || ('A' <= c && c <= 'Z') || c == '_',
        CharClass::Text => c != '"',
    }
}

fn is_in_class(c: char, k: CharClass) -> (r: bool)
    ensures
        r == in_class(c, k),
{
    match k {
        CharClass::Digit => '0' <= c && c <= '9',
        CharClass::Ident => ('a' <= c && c <= 'z') || ('A' <= c && c <= 'Z') || c == '_',
        CharClass::Text => c != '"',
    }
}

/// The end of the longest run of class `k` that starts at `pos`.
pub open spec fn run_end(s: Seq<char>, pos: int, k: CharClass) -> int
    decreases s.len() - pos,
{
    if 0 <= pos < s.len() && in_class(s[pos], k) {
        run_end(s, pos + 1, k)
    } else {
        pos
    }
}

/// The value of a string of decimal digits.
pub open spec fn digits_value(t: Seq<char>) -> int
    decreases t.len(),
{
    if t.len() == 0 {
        0
    } else {
        digits_value(t.drop_last()) * 10 + ((t.last() as u32) as int - ('0' as u32) as int)
    }
}

/// The decimal number at `pos`, one digit or more, and where it ends; none
/// where no digit stands there or the number exceeds 64 bits.
pub open spec fn number_at(s: Seq<char>, pos: int) -> Option<(u64, int)> {
    let e = run_end(s, pos, CharClass::Digit);
    if pos < e && digits_value(s.subrange(pos, e)) <= u64::MAX {
        Some((digits_value(s.subrange(pos, e)) as u64, e))
    } else {
        None
    }
}

/// Where `lit` ends, if it stands at `pos`.
pub open spec fn literal_at(s: Seq<char>, pos: int, lit: Seq<char>) -> Option<int> {
    if 0 <= pos && pos + lit.len() <= s.len() && s.subrange(pos, pos + lit.len()) == lit {
        Some(pos + lit.len())
    } else {
        None
    }
}

proof fn lemma_run_end(s: Seq<char>, pos: int, e: int, k: CharClass)
    requires
        0 <= pos <= e <= s.len(),
        forall|j: int| pos <= j < e ==> in_class(s[j], k),
        e == s.len() || !in_class(s[e], k),
    ensures
        run_end(s, pos, k) == e,
    decreases e - pos,
{
    if pos < e {
        lemma_run_end(s, pos + 1, e, k);
    }
}

/// The end of the longest run of class `k` at `pos` in `s`, whose length is `n`.
pub fn scan_run(s: &str, n: usize, pos: usize, k: CharClass) -> (r: usize)
    requires
        n == s@.len(),
        pos <= n,
    ensures
        r as int == run_end(s@, pos as int, k),
        pos <= r <= n,
        forall|j: int| pos <= j < r ==> in_class(#[trigger] s@[j], k),
{
    let mut e = pos;
    while e < n && is_in_class(s.get_char(e), k)
        invariant
            n == s@.len(),
            pos <= e <= n,
            forall|j: int| pos <= j < e ==> in_class(s@[j], k),
        decreases n - e,
    {
        e = e + 1;
    }
    proof {
        lemma_run_end(s@, pos as int, e as int, k);
    }
    e
}

/// The decimal number at `pos` and where it ends, as `number_at` gives it.
pub fn scan_number(s: &str, n: usize, pos: usize) -> (r: Option<(u64, usize)>)
    requires
        n == s@.len(),
        pos <= n,
    ensures
        match r {
            Some((v, e)) => number_at(s@, pos as int) == Some((v, e as int)) && e <= n,
            None => number_at(s@, pos as int) is None,
        },
{
    let e = scan_run(s, n, pos, CharClass::Digit);
    if e == pos {
        return None;
    }
    let mut acc: u64 = 0;
    let mut k = pos;
    while k < e
        invariant
            n == s@.len(),
            pos <= k <= e <= n,
            e as int == run_end(s@, pos as int, CharClass::Digit),
            forall|j: int| pos <= j < e ==> in_class(#[trigger] s@[j], CharClass::Digit),
            acc as int == digits_value(s@.subrange(pos as int, k as int)),
        decreases e - k,
    {
        let c = s.get_char(k);
        let d = (c as u32 - '0' as u32) as u64;
        proof {
            let t = s@.subrange(pos as int, k + 1);
            assert(t.drop_last() =~= s@.subrange(pos as int, k as int));
            assert(t.last() == c);
        }
        match acc.checked_mul(10) {
            Some(m) => match m.checked_add(d) {
                Some(v) => {
                    acc = v;
                },
                None => {
                    proof {
                        lemma_digits_grow(s@, pos as int, k + 1, e as int);
                    }
                    return None;
                },
            },
            None => {
                proof {
                    lemma_digits_grow(s@, pos as int, k + 1, e as int);
                }
                return None;
            },
        }
        k = k + 1;
    }
    Some((acc, e))
}

/// A longer run of digits is worth at least as much as its prefix.
proof fn lemma_digits_grow(s: Seq<char>, pos: int, k: int, e: int)
    requires
        0 <= pos <= k <= e <= s.len(),
        forall|j: int| pos <= j < e ==> in_class(#[trigger] s[j], CharClass::Digit),
    ensures
        digits_value(s.subrange(pos, k)) <= digits_value(s.subrange(pos, e)),
    decreases e - k,
{
    if k < e {
        lemma_digits_grow(s, pos, k + 1, e);
        let t = s.subrange(pos, k + 1);
        assert(t.drop_last() =~= s.subrange(pos, k));
        assert(in_class(s[k], CharClass::Digit));
        assert(t.last() == s[k]);
        lemma_digits_nonneg(s.subrange(pos, k));
    }
}

proof fn lemma_digits_nonneg(t: Seq<char>)
    requires
        forall|j: int| 0 <= j < t.len() ==> in_class(#[trigger] t[j], CharClass::Digit),
    ensures
        digits_value(t) >= 0,
    decreases t.len(),
{
    if t.len() > 0 {
        let u = t.drop_last();
        assert(forall|j: int| 0 <= j < u.len() ==> u[j] == t[j]);
        lemma_digits_nonneg(u);
        assert(in_class(t[t.len() - 1], CharClass::Digit));
    }
}

/// Where `lit` ends, if it stands at `pos`, as `literal_at` gives it.
pub fn scan_literal(s: &str, n: usize, pos: usize, lit: &str) -> (r: Option<usize>)
    requires
        n == s@.len(),
        pos <= n,
    ensures
        match r {
            Some(e) => literal_at(s@, pos as int, lit@) == Some(e as int) && e <= n,
            None => literal_at(s@, pos as int, lit@) is None,
        },
{
    let m = lit.unicode_len();
    if m > n - pos {
        return None;
    }
    let mut j: usize = 0;
    while j < m
        invariant
            n == s@.len(),
            m == lit@.len(),
            pos + m <= n,
            j <= m,
            forall|i: int| 0 <= i < j ==> s@[pos + i] == lit@[i],
        decreases m - j,
    {
        if s.get_char(pos + j) != lit.get_char(j) {
            proof {
                assert(s@.subrange(pos as int, pos + m)[j as int] != lit@[j as int]);
            }
            return None;
        }
        j = j + 1;
    }
    proof {
        assert(s@.subrange(pos as int, pos + m) =~= lit@);
    }
    Some(pos + m)
}

/// Whether the characters of `s` from `a` to `b` are exactly `lit`.
pub fn text_is(s: &str, n: usize, a: usize, b: usize, lit: &str) -> (r: bool)
    requires
        n == s@.len(),
        a <= b <= n,
    ensures
        r == (s@.subrange(a as int, b as int) == lit@),
{
    match scan_literal(s, n, a, lit) {
        Some(e) => e == b,
        None => {
            proof {
                if s@.subrange(a as int, b as int) == lit@ {
                    assert(s@.subrange(a as int, a + lit@.len()) == lit@);
                }
            }
            false
        },
    }
}

} // verus!
