//! Text as UTF-16 code units, and the print buffer built of them.

use vstd::prelude::*;
use vstd::string::*;

verus! {

/// The number of code units that a print buffer holds at most.
pub const PRINT_CAPACITY: usize = 400;

/// A text cut to the capacity of a print buffer.
pub open spec fn clipped(s: Seq<u16>) -> Seq<u16> {
    if s.len() <= PRINT_CAPACITY {
        s
    } else {
        s.subrange(0, PRINT_CAPACITY as int)
    }
}

/// The one or two code units that encode a character.
pub open spec fn units_of(c: char) -> Seq<u16> {
    let v = c as u32;
    if v < 0x10000 {
        seq![v as u16]
    } else {
        seq![(0xd800 + (v - 0x10000) / 0x400) as u16, (0xdc00 + (v - 0x10000) % 0x400) as u16]
    }
}

/// The UTF-16 encoding of a sequence of characters.
pub open spec fn utf16(s: Seq<char>) -> Seq<u16>
    decreases s.len(),
{
    if s.len() == 0 {
        Seq::empty()
    } else {
        utf16(s.drop_last()) + units_of(s.last())
    }
}

/// The decimal digits of a natural number, without leading zeros.
pub open spec fn digits_of(a: nat) -> Seq<u16>
    decreases a,
{
    if a < 10 {
        seq![(48 + a) as u16]
    } else {
        digits_of(a / 10).push((48 + a % 10) as u16)
    }
}

/// An integer in decimal, with a minus sign where it is negative.
pub open spec fn decimal(n: int) -> Seq<u16> {
    if n < 0 {
        seq![45u16] + digits_of((-n) as nat)
    } else {
        digits_of(n as nat)
    }
}

/// Appends `units` to `buf` and cuts the result to the capacity.
pub fn append_clipped(buf: &mut Vec<u16>, units: &Vec<u16>)
    requires
        old(buf)@.len() <= PRINT_CAPACITY,
    ensures
        final(buf)@ == clipped(old(buf)@ + units@),
        final(buf)@.len() <= PRINT_CAPACITY,
{
    let n: usize = units.len();
    let mut i: usize = 0;
    while i < n && buf.len() < PRINT_CAPACITY
        invariant
            n == units@.len(),
            i <= n,
            buf@.len() <= PRINT_CAPACITY,
            buf@ == old(buf)@ + units@.subrange(0, i as int),
        decreases n - i,
    {
        buf.push(units[i]);
        i = i + 1;
        assert(buf@ =~= old(buf)@ + units@.subrange(0, i as int));
    }
    assert(buf@ =~= clipped(old(buf)@ + units@));
}

/// Encodes a string as UTF-16.
pub fn encode(s: &str) -> (out: Vec<u16>)
    ensures
        out@ == utf16(s@),
{
    let mut out: Vec<u16> = Vec::new();
    let n: usize = s.unicode_len();
    let mut i: usize = 0;
    assert(s@.subrange(0, 0) =~= Seq::<char>::empty());
    while i < n
        invariant
            n == s@.len(),
            i <= n,
            out@ == utf16(s@.subrange(0, i as int)),
        decreases n - i,
    {
        let c: char = s.get_char(i);
        let v: u32 = c as u32;
        proof {
            let next = s@.subrange(0, i + 1);
            assert(next.drop_last() =~= s@.subrange(0, i as int));
            assert(next.last() == c);
        }
        if v < 0x10000 {
            out.push(v as u16);
        } else {
            out.push((0xd800 + (v - 0x10000) / 0x400) as u16);
            out.push((0xdc00 + (v - 0x10000) % 0x400) as u16);
        }
        i = i + 1;
        assert(out@ =~= utf16(s@.subrange(0, i as int)));
    }
    assert(s@.subrange(0, n as int) =~= s@);
    out
}

/// The digits of `t`, then the units of `low` from the last to the first.
spec fn digits_then(t: nat, low: Seq<u16>) -> Seq<u16> {
    digits_of(t) + low.reverse()
}

proof fn lemma_digits_step(t: nat, low: Seq<u16>)
    requires
        t >= 10,
    ensures
        digits_then(t, low) == digits_then(t / 10, low.push((48 + t % 10) as u16)),
{
    let d = (48 + t % 10) as u16;
    let next = low.push(d);
    assert(next.reverse() =~= seq![d] + low.reverse());
    assert(digits_of(t) == digits_of(t / 10).push(d));
    assert(digits_of(t / 10).push(d) + low.reverse() =~= digits_of(t / 10) + (seq![d]
        + low.reverse()));
}

/// Writes an integer in decimal.
pub fn digits(n: i64) -> (out: Vec<u16>)
    ensures
        out@ == decimal(n as int),
{
    let mut out: Vec<u16> = Vec::new();
    let a: u64 = if n < 0 {
        out.push(45);
        if n == i64::MIN {
            0x8000_0000_0000_0000
        } else {
            (-n) as u64
        }
    } else {
        n as u64
    };
    let mut low: Vec<u16> = Vec::new();
    let mut t: u64 = a;
    assert(low@.reverse() =~= Seq::<u16>::empty());
    assert(digits_of(a as nat) + Seq::<u16>::empty() =~= digits_of(a as nat));
    while t >= 10
        invariant
            digits_of(a as nat) == digits_then(t as nat, low@),
        decreases t,
    {
        proof {
            lemma_digits_step(t as nat, low@);
        }
        low.push((48 + t % 10) as u16);
        t = t / 10;
    }
    let ghost head = out@;
    out.push((48 + t) as u16);
    let mut i: usize = low.len();
    while i > 0
        invariant
            i <= low@.len(),
            t < 10,
            out@ == head + seq![(48 + t) as u16] + low@.reverse().subrange(0, low@.len() - i),
        decreases i,
    {
        i = i - 1;
        out.push(low[i]);
        assert(out@ =~= head + seq![(48 + t) as u16] + low@.reverse().subrange(
            0,
            low@.len() - i,
        ));
    }
    assert(low@.reverse().subrange(0, low@.len() as int) =~= low@.reverse());
    assert(out@ =~= head + digits_then(t as nat, low@));
    assert(Seq::<u16>::empty() + digits_of(a as nat) =~= digits_of(a as nat));
    out
}

/// Whether a code unit is a decimal digit.
pub open spec fn is_digit(u: u16) -> bool {
    48 <= u <= 57
}

/// Whether `{d}`, with `d` one decimal digit, starts at `i`.
pub open spec fn placeholder(buf: Seq<u16>, i: int) -> bool {
    &&& 0 <= i
    &&& i + 2 < buf.len()
    &&& buf[i] == 123
    &&& is_digit(buf[i + 1])
    &&& buf[i + 2] == 125
}

/// Whether the placeholder at `i` is the one to fill next: none has a
/// lower digit, and none with the same digit stands before it.
pub open spec fn next_placeholder(buf: Seq<u16>, i: int) -> bool {
    &&& placeholder(buf, i)
    &&& forall|j: int| #[trigger]
        placeholder(buf, j) ==> buf[i + 1] < buf[j + 1] || (buf[i + 1] == buf[j + 1] && i <= j)
}

/// The buffer with the three units at `i` replaced by `text`, cut to the capacity.
pub open spec fn substituted(buf: Seq<u16>, i: int, text: Seq<u16>) -> Seq<u16> {
    clipped(buf.subrange(0, i) + text + buf.subrange(i + 3, buf.len() as int))
}

/// Finds the placeholder to fill next, if there is any.
pub fn find_placeholder(buf: &Vec<u16>) -> (r: Option<usize>)
    ensures
        match r {
            Some(i) => next_placeholder(buf@, i as int),
            None => forall|j: int| !placeholder(buf@, j),
        },
{
    let n: usize = buf.len();
    if n < 3 {
        return None;
    }
    let mut best: Option<usize> = None;
    let mut i: usize = 0;
    while i < n - 2
        invariant
            3 <= n == buf@.len(),
            match best {
                Some(b) => {
                    &&& b < i
                    &&& placeholder(buf@, b as int)
                    &&& forall|j: int|
                        0 <= j < i && #[trigger] placeholder(buf@, j) ==> buf@[b + 1] < buf@[j + 1]
                            || (buf@[b + 1] == buf@[j + 1] && b <= j)
                },
                None => forall|j: int| 0 <= j < i ==> !placeholder(buf@, j),
            },
        decreases n - i,
    {
        if buf[i] == 123 && 48 <= buf[i + 1] && buf[i + 1] <= 57 && buf[i + 2] == 125 {
            match best {
                Some(b) => {
                    if buf[i + 1] < buf[b + 1] {
                        best = Some(i);
                    }
                },
                None => {
                    best = Some(i);
                },
            }
        }
        i = i + 1;
    }
    best
}

/// Fills the placeholder that is next with `text`, and returns where it
/// stood. A buffer without a placeholder stays as it is.
pub fn substitute(buf: &mut Vec<u16>, text: &Vec<u16>) -> (r: Option<usize>)
    requires
        old(buf)@.len() <= PRINT_CAPACITY,
    ensures
        match r {
            Some(i) => next_placeholder(old(buf)@, i as int) && final(buf)@ == substituted(
                old(buf)@,
                i as int,
                text@,
            ),
            None => (forall|j: int| !placeholder(old(buf)@, j)) && final(buf)@ == old(buf)@,
        },
        final(buf)@.len() <= PRINT_CAPACITY,
{
    let found = find_placeholder(buf);
    match found {
        None => None,
        Some(at) => {
            let n: usize = buf.len();
            let mut out: Vec<u16> = Vec::new();
            let mut i: usize = 0;
            while i < at
                invariant
                    at < n == buf@.len(),
                    i <= at,
                    out@ == buf@.subrange(0, i as int),
                decreases at - i,
            {
                out.push(buf[i]);
                i = i + 1;
                assert(out@ =~= buf@.subrange(0, i as int));
            }
            append_clipped(&mut out, text);
            let mut tail: Vec<u16> = Vec::new();
            let mut k: usize = at + 3;
            assert(buf@.subrange(at + 3, at + 3) =~= Seq::<u16>::empty());
            while k < n
                invariant
                    at + 3 <= k <= n == buf@.len(),
                    tail@ == buf@.subrange(at + 3, k as int),
                decreases n - k,
            {
                tail.push(buf[k]);
                k = k + 1;
                assert(tail@ =~= buf@.subrange(at + 3, k as int));
            }
            let ghost middle = out@;
            append_clipped(&mut out, &tail);
            proof {
                let whole = buf@.subrange(0, at as int) + text@ + buf@.subrange(
                    at + 3,
                    n as int,
                );
                assert(middle == clipped(buf@.subrange(0, at as int) + text@));
                assert(out@ == clipped(middle + tail@));
                assert(out@ =~= clipped(whole));
            }
            *buf = out;
            Some(at)
        },
    }
}


/// Whether two texts hold the same code units.
pub fn same_units(a: &Vec<u16>, b: &Vec<u16>) -> (r: bool)
    ensures
        r == (a@ == b@),
{
    let n: usize = a.len();
    if n != b.len() {
        return false;
    }
    let mut i: usize = 0;
    while i < n
        invariant
            n == a@.len(),
            n == b@.len(),
            i <= n,
            forall|j: int| 0 <= j < i ==> a@[j] == b@[j],
        decreases n - i,
    {
        if a[i] != b[i] {
            return false;
        }
        i = i + 1;
    }
    assert(a@ =~= b@);
    true
}

/// A copy of a text.
pub fn copy(a: &Vec<u16>) -> (out: Vec<u16>)
    ensures
        out@ == a@,
{
    let mut out: Vec<u16> = Vec::new();
    let n: usize = a.len();
    let mut i: usize = 0;
    while i < n
        invariant
            n == a@.len(),
            i <= n,
            out@ == a@.subrange(0, i as int),
        decreases n - i,
    {
        out.push(a[i]);
        i = i + 1;
        assert(out@ =~= a@.subrange(0, i as int));
    }
    assert(a@.subrange(0, n as int) =~= a@);
    out
}

/// At most one placeholder is the next.
pub proof fn lemma_next_placeholder_unique(buf: Seq<u16>, i: int, j: int)
    requires
        next_placeholder(buf, i),
        next_placeholder(buf, j),
    ensures
        i == j,
{
}

} // verus!
