//! The literals of the language: numbers and strings.

use crate::{number, text};
use vstd::prelude::*;

verus! {

/// Whether a character is a decimal digit.
pub open spec fn is_digit(c: char) -> bool {
    '0' <= c <= '9'
}

/// The value of a digit in a base of 2, 10 or 16.
pub open spec fn digit_of(c: char, base: nat) -> Option<nat> {
    if '0' <= c <= '9' && (c as nat - '0' as nat) < base {
        Some((c as nat - '0' as nat) as nat)
    } else if base == 16 && 'a' <= c <= 'f' {
        Some((c as nat - 'a' as nat + 10) as nat)
    } else if base == 16 && 'A' <= c <= 'F' {
        Some((c as nat - 'A' as nat + 10) as nat)
    } else {
        None
    }
}

/// The number that a run of digits denotes; 0 for no digits.
pub open spec fn digits_value(s: Seq<char>, base: nat) -> Option<nat>
    decreases s.len(),
{
    if s.len() == 0 {
        Some(0)
    } else {
        match (digits_value(s.drop_last(), base), digit_of(s.last(), base)) {
            (Some(v), Some(d)) => Some(v * base + d),
            _ => None,
        }
    }
}

/// Whether a word is to be read as a number: it starts with a digit, or
/// with a sign or a point that a digit or a point follows.
pub open spec fn number_like(w: Seq<char>) -> bool {
    w.len() >= 1 && (is_digit(w[0]) || (w.len() >= 2 && (w[0] == '-' || w[0] == '+' || w[0] == '.')
        && (is_digit(w[1]) || w[1] == '.')))
}

/// The sign and the magnitude of a word that is an integer: decimal
/// digits, or binary digits after `0b`, or hexadecimal digits after `0x`,
/// with or without a sign before them.
pub open spec fn integer_of(w: Seq<char>) -> Option<(bool, nat)> {
    let negative = w.len() > 0 && w[0] == '-';
    let body = if w.len() > 0 && (w[0] == '-' || w[0] == '+') {
        w.skip(1)
    } else {
        w
    };
    let value = if body.len() >= 3 && body[0] == '0' && (body[1] == 'x' || body[1] == 'X') {
        digits_value(body.skip(2), 16)
    } else if body.len() >= 3 && body[0] == '0' && (body[1] == 'b' || body[1] == 'B') {
        digits_value(body.skip(2), 2)
    } else if body.len() >= 1 {
        digits_value(body, 10)
    } else {
        None
    };
    match value {
        Some(v) => Some((negative, v)),
        None => None,
    }
}

/// The pattern of a word that is an integer below `2^64` in magnitude: the
/// double nearest to it.
pub open spec fn exact(w: Seq<char>) -> Option<u64> {
    match integer_of(w) {
        Some((negative, v)) => if v <= u64::MAX {
            Some(
                if negative {
                    (number::SIGN_BIT + number::encoding(v)) as u64
                } else {
                    number::encoding(v) as u64
                },
            )
        } else {
            None
        },
        None => None,
    }
}

/// A run of digits denotes at least what any of its beginnings denotes.
proof fn lemma_value_grows(s: Seq<char>, base: nat, k: int)
    requires
        0 <= k <= s.len(),
        digits_value(s, base) is Some,
    ensures
        digits_value(s.subrange(0, k), base) is Some,
        digits_value(s.subrange(0, k), base)->0 <= digits_value(s, base)->0,
    decreases s.len(),
{
    if k == s.len() {
        assert(s.subrange(0, k) =~= s);
    } else {
        lemma_value_grows(s.drop_last(), base, k);
        assert(s.drop_last().subrange(0, k) =~= s.subrange(0, k));
        let v = digits_value(s.drop_last(), base)->0;
        let d = digit_of(s.last(), base)->0;
        assert(v * base + d >= v) by (nonlinear_arith)
            requires
                base >= 1,
        ;
    }
}

/// The value of a digit.
fn digit(c: char, base: u64) -> (r: Option<u64>)
    requires
        base == 2 || base == 10 || base == 16,
    ensures
        r matches Some(d) ==> d < base,
        match r {
            Some(d) => digit_of(c, base as nat) == Some(d as nat),
            None => digit_of(c, base as nat) is None,
        },
{
    let v: u32 = c as u32;
    if v >= 48 && v <= 57 && ((v - 48) as u64) < base {
        Some((v - 48) as u64)
    } else if base == 16 && v >= 97 && v <= 102 {
        Some((v - 97 + 10) as u64)
    } else if base == 16 && v >= 65 && v <= 70 {
        Some((v - 65 + 10) as u64)
    } else {
        None
    }
}

/// The number that the digits from `start` up to `end` denote, if they are
/// digits and the number is below `2^64`.
fn digits(src: &Vec<char>, start: usize, end: usize, base: u64) -> (r: Option<u64>)
    requires
        start <= end <= src@.len(),
        base == 2 || base == 10 || base == 16,
    ensures
        match r {
            Some(v) => digits_value(src@.subrange(start as int, end as int), base as nat) == Some(
                v as nat,
            ),
            None => match digits_value(src@.subrange(start as int, end as int), base as nat) {
                Some(v) => v > u64::MAX,
                None => true,
            },
        },
{
    let ghost s = src@.subrange(start as int, end as int);
    let mut v: u64 = 0;
    let mut i: usize = start;
    assert(s.subrange(0, 0) =~= Seq::<char>::empty());
    while i < end
        invariant
            start <= i <= end <= src@.len(),
            base == 2 || base == 10 || base == 16,
            s == src@.subrange(start as int, end as int),
            digits_value(s.subrange(0, i - start), base as nat) == Some(v as nat),
        decreases end - i,
    {
        let ghost before = s.subrange(0, i - start);
        let ghost next = s.subrange(0, i - start + 1);
        proof {
            assert(next.drop_last() =~= before);
            assert(next.last() == src@[i as int]);
        }
        match digit(src[i], base) {
            None => {
                proof {
                    if digits_value(s, base as nat) is Some {
                        lemma_value_grows(s, base as nat, i - start + 1);
                    }
                }
                return None;
            },
            Some(d) => {
                if v > (u64::MAX - d) / base {
                    proof {
                        assert(v * base + d > u64::MAX) by (nonlinear_arith)
                            requires
                                v > (u64::MAX - d) / (base as int),
                                base >= 2,
                                d < base,
                        ;
                        if digits_value(s, base as nat) is Some {
                            lemma_value_grows(s, base as nat, i - start + 1);
                        }
                    }
                    return None;
                }
                proof {
                    assert(v * base + d <= u64::MAX) by (nonlinear_arith)
                        requires
                            v <= (u64::MAX - d) / (base as int),
                            base >= 2,
                            d < base,
                    ;
                }
                v = v * base + d;
            },
        }
        i = i + 1;
    }
    assert(s.subrange(0, end - start) =~= s);
    Some(v)
}

/// The natural number that a word of decimal digits denotes.
pub open spec fn natural_of(w: Seq<char>) -> Option<nat> {
    if w.len() >= 1 {
        digits_value(w, 10)
    } else {
        None
    }
}

/// The natural number that the word from `start` up to `end` denotes, if
/// the word is made of decimal digits and the number is below `2^64`.
pub fn natural(src: &Vec<char>, start: usize, end: usize) -> (r: Option<u64>)
    requires
        start <= end <= src@.len(),
    ensures
        match r {
            Some(v) => natural_of(src@.subrange(start as int, end as int)) == Some(v as nat),
            None => match natural_of(src@.subrange(start as int, end as int)) {
                Some(v) => v > u64::MAX,
                None => true,
            },
        },
{
    if end == start {
        None
    } else {
        digits(src, start, end, 10)
    }
}

/// Whether the word from `start` up to `end` is to be read as a number.
pub fn is_number_like(src: &Vec<char>, start: usize, end: usize) -> (r: bool)
    requires
        start <= end <= src@.len(),
    ensures
        r == number_like(src@.subrange(start as int, end as int)),
{
    if end == start {
        return false;
    }
    let c: char = src[start];
    if c >= '0' && c <= '9' {
        return true;
    }
    if end - start < 2 {
        return false;
    }
    let d: char = src[start + 1];
    (c == '-' || c == '+' || c == '.') && ((d >= '0' && d <= '9') || d == '.')
}

/// The pattern of the word from `start` up to `end`, if the word is an
/// integer below `2^64` in magnitude.
pub fn exact_number(src: &Vec<char>, start: usize, end: usize) -> (r: Option<u64>)
    requires
        start <= end <= src@.len(),
    ensures
        r == exact(src@.subrange(start as int, end as int)),
{
    let ghost w = src@.subrange(start as int, end as int);
    if end == start {
        return None;
    }
    let negative: bool = src[start] == '-';
    let from: usize = if src[start] == '-' || src[start] == '+' {
        start + 1
    } else {
        start
    };
    let ghost body = if w[0] == '-' || w[0] == '+' {
        w.skip(1)
    } else {
        w
    };
    assert(body =~= src@.subrange(from as int, end as int));
    let value: Option<u64> = if end - from >= 3 && src[from] == '0' && (src[from + 1] == 'x'
        || src[from + 1] == 'X') {
        assert(body.skip(2) =~= src@.subrange(from + 2, end as int));
        digits(src, from + 2, end, 16)
    } else if end - from >= 3 && src[from] == '0' && (src[from + 1] == 'b' || src[from + 1]
        == 'B') {
        assert(body.skip(2) =~= src@.subrange(from + 2, end as int));
        digits(src, from + 2, end, 2)
    } else if end - from >= 1 {
        digits(src, from, end, 10)
    } else {
        None
    };
    match value {
        Some(v) => {
            let bits: u64 = number::from_magnitude(v);
            Some(
                if negative {
                    number::SIGN_BIT + bits
                } else {
                    bits
                },
            )
        },
        None => None,
    }
}

/// A string being read: the code units so far, whether a backslash came
/// last, and whether an escape was none.
pub struct Unescaped {
    pub units: Seq<u16>,
    pub escaped: bool,
    pub bad: bool,
}

/// The string after the character `c`: after a backslash, `n` is a
/// newline, and a quote or a backslash is itself.
pub open spec fn unescape_step(s: Unescaped, c: char) -> Unescaped {
    if s.bad {
        s
    } else if s.escaped {
        if c == 'n' {
            Unescaped { units: s.units.push(10), escaped: false, bad: false }
        } else if c == '"' {
            Unescaped { units: s.units.push(34), escaped: false, bad: false }
        } else if c == '\\' {
            Unescaped { units: s.units.push(92), escaped: false, bad: false }
        } else {
            Unescaped { bad: true, ..s }
        }
    } else if c == '\\' {
        Unescaped { escaped: true, ..s }
    } else {
        Unescaped { units: s.units + text::units_of(c), ..s }
    }
}

/// The string after the first `n` characters of what stands between its quotes.
pub open spec fn unescaping(s: Seq<char>, n: nat) -> Unescaped
    decreases n,
{
    if n == 0 {
        Unescaped { units: Seq::empty(), escaped: false, bad: false }
    } else {
        unescape_step(unescaping(s, (n - 1) as nat), s[n - 1])
    }
}

/// The text of a string, as UTF-16, given what stands between its quotes;
/// none where an escape is none.
pub open spec fn unescaped(s: Seq<char>) -> Option<Seq<u16>> {
    let u = unescaping(s, s.len());
    if u.bad || u.escaped {
        None
    } else {
        Some(u.units)
    }
}

/// The text of the string whose characters stand from `start` up to `end`.
pub fn unescape(src: &Vec<char>, start: usize, end: usize) -> (r: Option<Vec<u16>>)
    requires
        start <= end <= src@.len(),
    ensures
        match r {
            Some(units) => unescaped(src@.subrange(start as int, end as int)) == Some(units@),
            None => unescaped(src@.subrange(start as int, end as int)) is None,
        },
{
    let ghost s = src@.subrange(start as int, end as int);
    let mut units: Vec<u16> = Vec::new();
    let mut escaped: bool = false;
    let mut i: usize = start;
    while i < end
        invariant
            start <= i <= end <= src@.len(),
            s == src@.subrange(start as int, end as int),
            unescaping(s, (i - start) as nat) == (Unescaped { units: units@, escaped, bad: false }),
        decreases end - i,
    {
        let c: char = src[i];
        assert(s[i - start] == c);
        if escaped {
            if c == 'n' {
                units.push(10);
            } else if c == '"' {
                units.push(34);
            } else if c == '\\' {
                units.push(92);
            } else {
                proof {
                    lemma_bad_stays(s, (i - start + 1) as nat, s.len());
                }
                return None;
            }
            escaped = false;
        } else if c == '\\' {
            escaped = true;
        } else {
            let v: u32 = c as u32;
            let ghost before = units@;
            if v < 0x10000 {
                units.push(v as u16);
            } else {
                units.push((0xd800 + (v - 0x10000) / 0x400) as u16);
                units.push((0xdc00 + (v - 0x10000) % 0x400) as u16);
            }
            assert(units@ =~= before + text::units_of(c));
        }
        i = i + 1;
    }
    if escaped {
        None
    } else {
        Some(units)
    }
}

/// Once an escape was none, the string stays bad.
proof fn lemma_bad_stays(s: Seq<char>, k: nat, n: nat)
    requires
        k <= n,
        unescaping(s, k).bad,
    ensures
        unescaping(s, n).bad,
    decreases n,
{
    if k < n {
        lemma_bad_stays(s, k, (n - 1) as nat);
    }
}

} // verus!
