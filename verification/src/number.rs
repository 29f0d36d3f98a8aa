//! IEEE-754 binary64 numbers as bit patterns.
//!
//! A finite number is `(-1)^negative * significand * 2^scale`. The functions
//! here classify, order and convert numbers by integer arithmetic on the
//! pattern alone.

use vstd::arithmetic::div_mod::*;
use vstd::arithmetic::power2::*;
use vstd::prelude::*;

verus! {

/// The pattern of the sign bit; also the pattern of `-0.0`.
pub const SIGN_BIT: u64 = 0x8000_0000_0000_0000;

/// `2^52`: the number of fraction patterns, and the weight of the exponent field.
pub const FRACTION_SPAN: u64 = 0x10_0000_0000_0000;

/// The pattern of `1.0`.
pub const ONE: u64 = 0x3ff0_0000_0000_0000;

/// The pattern of `-1.0`.
pub const MINUS_ONE: u64 = 0xbff0_0000_0000_0000;

/// The pattern of positive infinity.
pub const INFINITY: u64 = 0x7ff0_0000_0000_0000;

/// Whether the sign bit is set.
pub open spec fn negative(bits: u64) -> bool {
    bits >= SIGN_BIT
}

/// The biased exponent field, `0..=2047`.
pub open spec fn exponent(bits: u64) -> int {
    (bits as int / FRACTION_SPAN as int) % 2048
}

/// The fraction field, `0..2^52`.
pub open spec fn fraction(bits: u64) -> int {
    bits as int % FRACTION_SPAN as int
}

/// Neither an infinity nor a NaN.
pub open spec fn finite(bits: u64) -> bool {
    exponent(bits) != 2047
}

/// Not a number.
pub open spec fn nan(bits: u64) -> bool {
    exponent(bits) == 2047 && fraction(bits) != 0
}

/// Positive or negative zero.
pub open spec fn zero(bits: u64) -> bool {
    bits == 0 || bits == SIGN_BIT
}

/// The integer that `2^scale` multiplies: the fraction, with the implicit
/// leading bit for a normal number.
pub open spec fn significand(bits: u64) -> int {
    if exponent(bits) == 0 {
        fraction(bits)
    } else {
        FRACTION_SPAN as int + fraction(bits)
    }
}

/// The power of two that multiplies the significand.
pub open spec fn scale(bits: u64) -> int {
    if exponent(bits) == 0 {
        -1074
    } else {
        exponent(bits) - 1075
    }
}

/// The magnitude of a finite number rounded toward zero:
/// `floor(significand * 2^scale)`.
pub open spec fn whole(bits: u64) -> int {
    if scale(bits) >= 0 {
        significand(bits) * pow2(scale(bits) as nat)
    } else {
        significand(bits) / (pow2((-scale(bits)) as nat) as int)
    }
}

/// Whether a finite number has digits below the units.
pub open spec fn fractional(bits: u64) -> bool {
    scale(bits) < 0 && significand(bits) % (pow2((-scale(bits)) as nat) as int) != 0
}

/// A number rounded toward zero to a 64-bit signed integer: NaN gives 0,
/// and what lies outside the range of `i64` gives the nearer end of that range.
pub open spec fn truncation(bits: u64) -> int {
    if nan(bits) {
        0
    } else if !finite(bits) {
        if negative(bits) {
            i64::MIN as int
        } else {
            i64::MAX as int
        }
    } else if negative(bits) {
        if whole(bits) >= 0x8000_0000_0000_0000 {
            i64::MIN as int
        } else {
            -whole(bits)
        }
    } else {
        if whole(bits) > i64::MAX {
            i64::MAX as int
        } else {
            whole(bits)
        }
    }
}

/// `2^k` for an exponent that fits.
pub fn power_of_two(k: u32) -> (r: u64)
    requires
        k < 64,
    ensures
        r == pow2(k as nat),
{
    let mut r: u64 = 1;
    let mut i: u32 = 0;
    proof {
        lemma2_to64();
    }
    while i < k
        invariant
            i <= k < 64,
            r == pow2(i as nat),
        decreases k - i,
    {
        proof {
            lemma_pow2_unfold((i + 1) as nat);
            lemma_pow2_strictly_increases((i + 1) as nat, 64);
            lemma2_to64();
        }
        r = r * 2;
        i = i + 1;
    }
    r
}

/// Whether a number is neither an infinity nor a NaN.
pub fn is_finite(bits: u64) -> (r: bool)
    ensures
        r == finite(bits),
{
    (bits / FRACTION_SPAN) % 2048 != 2047
}

/// Whether a number is positive or negative zero.
pub fn is_zero(bits: u64) -> (r: bool)
    ensures
        r == zero(bits),
{
    bits == 0 || bits == SIGN_BIT
}

/// A number below one in magnitude has no whole part.
pub proof fn lemma_small_whole(bits: u64)
    requires
        exponent(bits) < 1023,
    ensures
        whole(bits) == 0,
{
    let s = (-scale(bits)) as nat;
    assert(s >= 53);
    lemma2_to64_rest();
    if s > 53 {
        lemma_pow2_strictly_increases(53, s);
    }
    assert(significand(bits) < pow2(s));
    lemma_basic_div(significand(bits), pow2(s) as int);
}

/// A number of scale 11 or more is at least `2^63` in magnitude.
pub proof fn lemma_large_whole(bits: u64)
    requires
        finite(bits),
        exponent(bits) >= 1086,
    ensures
        whole(bits) >= 0x8000_0000_0000_0000,
{
    let s = scale(bits) as nat;
    lemma2_to64();
    if s > 11 {
        lemma_pow2_strictly_increases(11, s);
    }
    let m = significand(bits);
    let p = pow2(s) as int;
    assert(m >= 0x10_0000_0000_0000);
    assert(p >= 0x800);
    assert(m * p >= 0x10_0000_0000_0000 * 0x800) by (nonlinear_arith)
        requires
            m >= 0x10_0000_0000_0000,
            p >= 0x800,
    ;
}

/// Converts as a cast to a 64-bit signed integer does: toward zero, NaN to
/// 0, and out-of-range values to the nearer end of the range.
pub fn to_int(bits: u64) -> (r: i64)
    ensures
        r == truncation(bits),
{
    let e: u64 = (bits / FRACTION_SPAN) % 2048;
    let f: u64 = bits % FRACTION_SPAN;
    let neg: bool = bits >= SIGN_BIT;
    if e == 2047 {
        if f != 0 {
            0
        } else if neg {
            i64::MIN
        } else {
            i64::MAX
        }
    } else if e < 1023 {
        proof {
            lemma_small_whole(bits);
        }
        0
    } else if e >= 1086 {
        proof {
            lemma_large_whole(bits);
        }
        if neg {
            i64::MIN
        } else {
            i64::MAX
        }
    } else {
        let m: u64 = FRACTION_SPAN + f;
        let w: u64 = if e >= 1075 {
            let p: u64 = power_of_two((e - 1075) as u32);
            proof {
                lemma2_to64();
                if e < 1085 {
                    lemma_pow2_strictly_increases((e - 1075) as nat, 10);
                }
                assert(m * p <= 0x1f_ffff_ffff_ffff * 0x400) by (nonlinear_arith)
                    requires
                        m <= 0x1f_ffff_ffff_ffff,
                        0 <= p <= 0x400,
                ;
            }
            m * p
        } else {
            let p: u64 = power_of_two((1075 - e) as u32);
            proof {
                lemma_pow2_pos((1075 - e) as nat);
                lemma_div_is_ordered_by_denominator(m as int, 1, p as int);
            }
            m / p
        };
        assert(w == whole(bits));
        assert(w < 0x8000_0000_0000_0000);
        if neg {
            -(w as i64)
        } else {
            w as i64
        }
    }
}

/// The number of binary digits of `a`: the `k` with `2^(k-1) <= a < 2^k`.
pub open spec fn bit_length(a: nat) -> nat
    decreases a,
{
    if a == 0 {
        0
    } else {
        1 + bit_length(a / 2)
    }
}

/// `a / 2^shift`, rounded to the nearest integer, a tie going to the even one.
pub open spec fn halved(a: nat, shift: nat) -> nat {
    let d = pow2(shift);
    let q = a / d;
    let r = a % d;
    if 2 * r > d || (2 * r == d && q % 2 == 1) {
        q + 1
    } else {
        q
    }
}

/// The pattern of the double nearest to the natural number `a`, a tie going
/// to the even significand. Up to `2^53` the double is `a` itself.
pub open spec fn encoding(a: nat) -> int {
    if a == 0 {
        0
    } else {
        let k = bit_length(a);
        let m: int = if k <= 53 {
            (a * pow2((53 - k) as nat)) as int
        } else {
            halved(a, (k - 53) as nat) as int
        };
        (1022 + k) * FRACTION_SPAN + (m - FRACTION_SPAN)
    }
}

/// The pattern of the double nearest to the integer `n`.
pub open spec fn int_encoding(n: int) -> int {
    if n < 0 {
        SIGN_BIT + encoding((-n) as nat)
    } else {
        encoding(n as nat)
    }
}

/// A positive number lies between the powers of two that its length names.
pub proof fn lemma_bit_length_bounds(a: nat)
    requires
        a > 0,
    ensures
        bit_length(a) >= 1,
        pow2((bit_length(a) - 1) as nat) <= a < pow2(bit_length(a)),
    decreases a,
{
    lemma2_to64();
    if a == 1 {
        assert(bit_length(0) == 0);
        assert(bit_length(1) == 1 + bit_length(0));
    } else {
        lemma_bit_length_bounds(a / 2);
        let k = bit_length(a / 2);
        lemma_pow2_unfold(k);
        lemma_pow2_unfold(k + 1);
    }
}

/// The length of a number below `2^64` is at most 64.
pub proof fn lemma_bit_length_limit(a: nat)
    requires
        0 < a < 0x1_0000_0000_0000_0000,
    ensures
        1 <= bit_length(a) <= 64,
{
    lemma_bit_length_bounds(a);
    lemma2_to64();
    let k = bit_length(a);
    if k > 64 {
        if k - 1 > 64 {
            lemma_pow2_strictly_increases(64, (k - 1) as nat);
        }
        assert(false);
    }
}

fn length_of(a: u64) -> (k: u32)
    ensures
        k == bit_length(a as nat),
        k <= 64,
{
    let mut k: u32 = 0;
    let mut t: u64 = a;
    proof {
        if a > 0 {
            lemma_bit_length_limit(a as nat);
        }
    }
    while t > 0
        invariant
            bit_length(a as nat) == k + bit_length(t as nat),
            bit_length(a as nat) <= 64,
        decreases t,
    {
        t = t / 2;
        k = k + 1;
    }
    k
}

/// The double nearest to an unsigned integer.
pub fn from_magnitude(a: u64) -> (r: u64)
    ensures
        r == encoding(a as nat),
        r < SIGN_BIT,
{
    if a == 0 {
        return 0;
    }
    let k: u32 = length_of(a);
    proof {
        lemma_bit_length_bounds(a as nat);
        lemma2_to64();
        lemma2_to64_rest();
    }
    let m: u64 = if k <= 53 {
        let p: u64 = power_of_two(53 - k);
        proof {
            lemma_pow2_adds(k as nat, (53 - k) as nat);
            lemma_pow2_adds((k - 1) as nat, (53 - k) as nat);
            let hi = pow2(k as nat) as int;
            let lo = pow2((k - 1) as nat) as int;
            let pp = p as int;
            let aa = a as int;
            lemma_pow2_pos((53 - k) as nat);
            assert(aa * pp < hi * pp) by (nonlinear_arith)
                requires
                    aa < hi,
                    pp > 0,
            ;
            assert(lo * pp <= aa * pp) by (nonlinear_arith)
                requires
                    lo <= aa,
                    pp > 0,
            ;
        }
        a * p
    } else {
        let d: u64 = power_of_two(k - 53);
        let q: u64 = a / d;
        let r: u64 = a % d;
        proof {
            let s = (k - 53) as nat;
            lemma_pow2_adds(53, s);
            lemma_pow2_adds(52, s);
            lemma_pow2_pos(s);
            let dd = d as int;
            let aa = a as int;
            lemma_fundamental_div_mod(aa, dd);
            assert(q < 0x20_0000_0000_0000) by (nonlinear_arith)
                requires
                    aa < 0x20_0000_0000_0000 * dd,
                    aa == dd * q + r,
                    0 <= r < dd,
                    dd > 0,
            ;
            assert(q >= 0x10_0000_0000_0000) by (nonlinear_arith)
                requires
                    aa >= 0x10_0000_0000_0000 * dd,
                    aa == dd * q + r,
                    0 <= r < dd,
                    dd > 0,
            ;
            if k - 53 < 11 {
                lemma_pow2_strictly_increases(s, 11);
            }
        }
        if 2 * r > d || (2 * r == d && q % 2 == 1) {
            q + 1
        } else {
            q
        }
    };
    (1022 + k as u64) * FRACTION_SPAN + (m - FRACTION_SPAN)
}

/// The double nearest to a signed integer.
pub fn from_int(n: i64) -> (r: u64)
    ensures
        r == int_encoding(n as int),
{
    if n < 0 {
        let a: u64 = if n == i64::MIN {
            SIGN_BIT
        } else {
            (-n) as u64
        };
        SIGN_BIT + from_magnitude(a)
    } else {
        from_magnitude(n as u64)
    }
}

/// Where a number stands in the order of all numbers: the rank of a
/// positive number is its pattern, that of a negative one the negated
/// pattern of its magnitude, so that both zeros have rank 0.
pub open spec fn rank(bits: u64) -> int {
    if negative(bits) {
        -(bits - SIGN_BIT)
    } else {
        bits as int
    }
}

/// `a < b` as numbers; false where either is NaN.
pub open spec fn below(a: u64, b: u64) -> bool {
    !nan(a) && !nan(b) && rank(a) < rank(b)
}

/// `a == b` as numbers: the zeros are equal, and NaN equals nothing.
pub open spec fn same(a: u64, b: u64) -> bool {
    !nan(a) && !nan(b) && rank(a) == rank(b)
}

/// Whether a pattern is not a number.
pub fn is_nan(bits: u64) -> (r: bool)
    ensures
        r == nan(bits),
{
    (bits / FRACTION_SPAN) % 2048 == 2047 && bits % FRACTION_SPAN != 0
}

/// Whether `a < b` as numbers.
pub fn less_than(a: u64, b: u64) -> (r: bool)
    ensures
        r == below(a, b),
{
    if is_nan(a) || is_nan(b) {
        false
    } else if a >= SIGN_BIT {
        if b >= SIGN_BIT {
            b < a
        } else {
            a > SIGN_BIT || b > 0
        }
    } else {
        b < SIGN_BIT && a < b
    }
}

/// Whether `a == b` as numbers.
pub fn equals(a: u64, b: u64) -> (r: bool)
    ensures
        r == same(a, b),
{
    if is_nan(a) || is_nan(b) {
        false
    } else {
        a == b || (is_zero(a) && is_zero(b))
    }
}

/// The pattern with the sign bit cleared.
pub open spec fn magnitude(bits: u64) -> u64 {
    if negative(bits) {
        (bits - SIGN_BIT) as u64
    } else {
        bits
    }
}

/// The magnitude of a number.
pub fn absolute(bits: u64) -> (r: u64)
    ensures
        r == magnitude(bits),
{
    if bits >= SIGN_BIT {
        bits - SIGN_BIT
    } else {
        bits
    }
}

/// `0`, `1` or `-1` by the sign of a number; a NaN stays as it is.
pub open spec fn signum(bits: u64) -> u64 {
    if nan(bits) {
        bits
    } else if zero(bits) {
        0
    } else if negative(bits) {
        MINUS_ONE
    } else {
        ONE
    }
}

/// `0`, `1` or `-1` by the sign of a number.
pub fn sign_of(bits: u64) -> (r: u64)
    ensures
        r == signum(bits),
{
    if is_nan(bits) {
        bits
    } else if is_zero(bits) {
        0
    } else if bits >= SIGN_BIT {
        MINUS_ONE
    } else {
        ONE
    }
}

/// The greater of two numbers, the first where neither is greater.
pub fn larger(a: u64, b: u64) -> (r: u64)
    ensures
        r == (if below(a, b) { b } else { a }),
{
    if less_than(a, b) {
        b
    } else {
        a
    }
}

/// The lesser of two numbers, the first where neither is less.
pub fn smaller(a: u64, b: u64) -> (r: u64)
    ensures
        r == (if below(b, a) { b } else { a }),
{
    if less_than(b, a) {
        b
    } else {
        a
    }
}

/// The pattern of `0` or `1` for a truth value.
pub fn from_bool(b: bool) -> (r: u64)
    ensures
        r == (if b { ONE } else { 0 }),
{
    if b {
        ONE
    } else {
        0
    }
}

/// Whether the digits below the units of a finite number amount to a half or more.
pub open spec fn half_or_more(bits: u64) -> bool {
    scale(bits) < 0 && 2 * (significand(bits) % (pow2((-scale(bits)) as nat) as int)) >= pow2(
        (-scale(bits)) as nat,
    )
}

/// Whether the digits below the units of a finite number amount to more than a half.
pub open spec fn more_than_half(bits: u64) -> bool {
    scale(bits) < 0 && 2 * (significand(bits) % (pow2((-scale(bits)) as nat) as int)) > pow2(
        (-scale(bits)) as nat,
    )
}

/// The greatest integer that is not above a finite number.
pub open spec fn floor_int(bits: u64) -> int {
    if negative(bits) {
        if fractional(bits) {
            -whole(bits) - 1
        } else {
            -whole(bits)
        }
    } else {
        whole(bits)
    }
}

/// The least integer that is not below a finite number.
pub open spec fn ceil_int(bits: u64) -> int {
    if negative(bits) {
        -whole(bits)
    } else if fractional(bits) {
        whole(bits) + 1
    } else {
        whole(bits)
    }
}

/// The integer nearest to a finite number, a half going up: 1.5 gives 2,
/// and -1.5 gives -1.
pub open spec fn round_int(bits: u64) -> int {
    if negative(bits) {
        if more_than_half(bits) {
            -whole(bits) - 1
        } else {
            -whole(bits)
        }
    } else if half_or_more(bits) {
        whole(bits) + 1
    } else {
        whole(bits)
    }
}

/// Whether a number has no digits below the units by its size alone, or is
/// not finite: rounding leaves such a number as it is.
pub open spec fn settled(bits: u64) -> bool {
    exponent(bits) >= 1075
}

/// The pattern of the floor of a number.
pub open spec fn floor_of(bits: u64) -> u64 {
    if settled(bits) {
        bits
    } else {
        int_encoding(floor_int(bits)) as u64
    }
}

/// The pattern of the ceiling of a number.
pub open spec fn ceil_of(bits: u64) -> u64 {
    if settled(bits) {
        bits
    } else {
        int_encoding(ceil_int(bits)) as u64
    }
}

/// The pattern of a number rounded, a half going up.
pub open spec fn round_of(bits: u64) -> u64 {
    if settled(bits) {
        bits
    } else {
        int_encoding(round_int(bits)) as u64
    }
}

/// A magnitude below `2^52`, parted at the units.
pub struct Parts {
    /// The whole part.
    pub whole: u64,
    /// Whether anything lies below the units.
    pub any: bool,
    /// Whether what lies below the units is a half or more.
    pub half: bool,
    /// Whether what lies below the units is more than a half.
    pub over: bool,
}

/// Parts the magnitude of a number below `2^52` at the units.
pub fn parts(bits: u64) -> (p: Parts)
    requires
        !settled(bits),
    ensures
        p.whole == whole(bits),
        p.whole < FRACTION_SPAN,
        p.any == fractional(bits),
        p.half == half_or_more(bits),
        p.over == more_than_half(bits),
{
    let e: u64 = (bits / FRACTION_SPAN) % 2048;
    let f: u64 = bits % FRACTION_SPAN;
    proof {
        lemma2_to64_rest();
    }
    if e == 0 {
        proof {
            lemma_pow2_strictly_increases(54, 1074);
            lemma_small_whole(bits);
            lemma_small_mod(f as nat, pow2(1074));
        }
        Parts { whole: 0, any: f != 0, half: false, over: false }
    } else if e < 1022 {
        proof {
            let s = (1075 - e) as nat;
            if s > 54 {
                lemma_pow2_strictly_increases(54, s);
            }
            lemma_small_whole(bits);
            lemma_small_mod((FRACTION_SPAN + f) as nat, pow2(s));
        }
        Parts { whole: 0, any: true, half: false, over: false }
    } else if e == 1022 {
        proof {
            lemma_small_whole(bits);
            lemma_small_mod((FRACTION_SPAN + f) as nat, pow2(53));
        }
        Parts { whole: 0, any: true, half: true, over: f != 0 }
    } else {
        let m: u64 = FRACTION_SPAN + f;
        let d: u64 = power_of_two((1075 - e) as u32);
        proof {
            let s = (1075 - e) as nat;
            lemma_pow2_pos(s);
            if s < 52 {
                lemma_pow2_strictly_increases(s, 52);
            }
            if s > 1 {
                lemma_pow2_strictly_increases(1, s);
            }
            lemma2_to64();
            lemma_fundamental_div_mod(m as int, d as int);
            let q = m as int / d as int;
            let r = m as int % d as int;
            assert(q < 0x10_0000_0000_0000) by (nonlinear_arith)
                requires
                    m as int == d as int * q + r,
                    0 <= r < d as int,
                    d as int >= 2,
                    m as int <= 0x1f_ffff_ffff_ffff,
            ;
        }
        let w: u64 = m / d;
        let r: u64 = m % d;
        Parts { whole: w, any: r != 0, half: 2 * r >= d, over: 2 * r > d }
    }
}

/// The pattern of the integer `sign * (whole + up)`.
fn signed(neg: bool, whole: u64, up: bool) -> (r: u64)
    requires
        whole < FRACTION_SPAN,
    ensures
        r == int_encoding(
            if neg {
                -(whole + if up { 1int } else { 0 })
            } else {
                whole + if up { 1int } else { 0 }
            },
        ),
{
    let a: u64 = if up {
        whole + 1
    } else {
        whole
    };
    if neg {
        from_int(-(a as i64))
    } else {
        from_int(a as i64)
    }
}

/// The greatest whole number that is not above `bits`.
pub fn floor(bits: u64) -> (r: u64)
    ensures
        r == floor_of(bits),
{
    if (bits / FRACTION_SPAN) % 2048 >= 1075 {
        return bits;
    }
    let p = parts(bits);
    let neg: bool = bits >= SIGN_BIT;
    signed(neg, p.whole, neg && p.any)
}

/// The least whole number that is not below `bits`.
pub fn ceil(bits: u64) -> (r: u64)
    ensures
        r == ceil_of(bits),
{
    if (bits / FRACTION_SPAN) % 2048 >= 1075 {
        return bits;
    }
    let p = parts(bits);
    let neg: bool = bits >= SIGN_BIT;
    signed(neg, p.whole, !neg && p.any)
}

/// The whole number nearest to `bits`, a half going up.
pub fn round(bits: u64) -> (r: u64)
    ensures
        r == round_of(bits),
{
    if (bits / FRACTION_SPAN) % 2048 >= 1075 {
        return bits;
    }
    let p = parts(bits);
    let neg: bool = bits >= SIGN_BIT;
    signed(neg, p.whole, if neg { p.over } else { p.half })
}

/// Whether a number is a whole number whose magnitude is below `2^63`.
pub open spec fn whole_number(bits: u64) -> bool {
    finite(bits) && exponent(bits) < 1086 && !fractional(bits)
}

/// Whether a number is a whole number whose magnitude is below `2^63`.
pub fn is_whole_number(bits: u64) -> (r: bool)
    ensures
        r == whole_number(bits),
{
    let e: u64 = (bits / FRACTION_SPAN) % 2048;
    if e >= 1086 {
        false
    } else if e >= 1075 {
        true
    } else {
        let p = parts(bits);
        !p.any
    }
}

/// `2^k` for an exponent that fits 128 bits.
pub fn wide_power_of_two(k: u32) -> (r: u128)
    requires
        k < 128,
    ensures
        r == pow2(k as nat),
{
    let mut r: u128 = 1;
    let mut i: u32 = 0;
    proof {
        lemma2_to64();
        lemma2_to64_rest();
        lemma_pow2_adds(63, 64);
    }
    while i < k
        invariant
            i <= k < 128,
            r == pow2(i as nat),
            pow2(127) == 0x8000_0000_0000_0000_0000_0000_0000_0000,
        decreases k - i,
    {
        proof {
            lemma_pow2_unfold((i + 1) as nat);
            if i + 1 < 127 {
                lemma_pow2_strictly_increases((i + 1) as nat, 127);
            }
        }
        r = r * 2;
        i = i + 1;
    }
    r
}

/// The whole nanoseconds in a number of seconds: nothing for a number that
/// is negative or NaN, and `u64::MAX` for what does not fit.
pub open spec fn nanoseconds(bits: u64) -> int {
    if nan(bits) || negative(bits) {
        0
    } else if !finite(bits) {
        u64::MAX as int
    } else {
        let n = if scale(bits) >= 0 {
            significand(bits) * 1_000_000_000 * pow2(scale(bits) as nat)
        } else {
            (significand(bits) * 1_000_000_000) / (pow2((-scale(bits)) as nat) as int)
        };
        if n > u64::MAX {
            u64::MAX as int
        } else {
            n
        }
    }
}

/// Converts seconds to whole nanoseconds.
pub fn to_nanoseconds(bits: u64) -> (r: u64)
    ensures
        r == nanoseconds(bits),
{
    let e: u64 = (bits / FRACTION_SPAN) % 2048;
    let f: u64 = bits % FRACTION_SPAN;
    if bits >= SIGN_BIT || (e == 2047 && f != 0) {
        return 0;
    }
    if e == 2047 {
        return u64::MAX;
    }
    if e >= 1075 {
        proof {
            let m = significand(bits);
            let p = pow2(scale(bits) as nat) as int;
            lemma_pow2_pos(scale(bits) as nat);
            assert(m * 1_000_000_000 * p >= 0x10_0000_0000_0000 * 1_000_000_000) by (
            nonlinear_arith)
                requires
                    m >= 0x10_0000_0000_0000,
                    p >= 1,
            ;
        }
        return u64::MAX;
    }
    let m: u64 = if e == 0 {
        f
    } else {
        FRACTION_SPAN + f
    };
    let s: u64 = if e == 0 {
        1074
    } else {
        1075 - e
    };
    let product: u128 = m as u128 * 1_000_000_000;
    if s >= 84 {
        proof {
            lemma2_to64();
            lemma2_to64_rest();
            lemma_pow2_adds(63, 21);
            if s > 84 {
                lemma_pow2_strictly_increases(84, s as nat);
            }
            assert(product < pow2(s as nat));
            lemma_basic_div(product as int, pow2(s as nat) as int);
        }
        return 0;
    }
    let d: u128 = wide_power_of_two(s as u32);
    proof {
        lemma_pow2_pos(s as nat);
    }
    let q: u128 = product / d;
    if q > u64::MAX as u128 {
        u64::MAX
    } else {
        q as u64
    }
}

/// The power of two that multiplies the significand of the nearest number
/// of single precision: 29 above that of the double, and at least -149.
pub open spec fn single_scale(bits: u64) -> int {
    if scale(bits) + 29 < -149 {
        -149
    } else {
        scale(bits) + 29
    }
}

/// The significand of the nearest number of single precision: that of the
/// double, rounded to the scale of single precision, a tie going to the
/// even one. It has at most 24 binary digits, or is `2^24`.
pub open spec fn single_significand(bits: u64) -> nat {
    halved(significand(bits) as nat, (single_scale(bits) - scale(bits)) as nat)
}

/// The pattern of the double that is the number of single precision
/// nearest to a number, a tie going to the even significand. What is
/// beyond single precision is an infinity, and what is not finite stays as
/// it is.
pub open spec fn single_of(bits: u64) -> u64 {
    let m = single_significand(bits);
    let t = single_scale(bits);
    let sign = if negative(bits) {
        SIGN_BIT
    } else {
        0
    };
    if !finite(bits) {
        bits
    } else if m == 0 {
        sign
    } else if t > 104 || (t == 104 && m == 0x100_0000) {
        (sign + INFINITY) as u64
    } else {
        (sign + encoding(m) + t * FRACTION_SPAN) as u64
    }
}

/// A significand below `2^(shift - 1)` rounds to nothing.
pub proof fn lemma_halved_small(a: nat, shift: nat)
    requires
        shift >= 1,
        2 * a < pow2(shift),
    ensures
        halved(a, shift) == 0,
{
    lemma_pow2_pos(shift);
    lemma_small_mod(a, pow2(shift));
    lemma_basic_div(a as int, pow2(shift) as int);
}

/// A significand of 53 binary digits at most, rounded by 29 digits or
/// more, has 24 binary digits at most, or is `2^24`.
pub proof fn lemma_halved_bound(a: nat, shift: nat)
    requires
        a < 0x20_0000_0000_0000,
        shift >= 29,
    ensures
        halved(a, shift) <= 0x100_0000,
{
    lemma2_to64();
    if shift > 29 {
        lemma_pow2_strictly_increases(29, shift);
    }
    let d = pow2(shift) as int;
    lemma_pow2_pos(shift);
    lemma_fundamental_div_mod(a as int, d);
    let q = a as int / d;
    let r = a as int % d;
    assert(q < 0x100_0000) by (nonlinear_arith)
        requires
            a == d * q + r,
            0 <= r < d,
            d >= 0x2000_0000,
            a < 0x20_0000_0000_0000,
    ;
}

/// The nearest number of single precision, as a double.
pub fn single(bits: u64) -> (r: u64)
    ensures
        r == single_of(bits),
{
    let e: u64 = (bits / FRACTION_SPAN) % 2048;
    let f: u64 = bits % FRACTION_SPAN;
    let sign: u64 = if bits >= SIGN_BIT {
        SIGN_BIT
    } else {
        0
    };
    if e == 2047 {
        return bits;
    }
    proof {
        lemma2_to64();
        lemma2_to64_rest();
    }
    if e < 873 {
        // at most 2^-203, far below half of the least number of single precision
        proof {
            let shift = (single_scale(bits) - scale(bits)) as nat;
            assert(shift >= 54);
            if shift > 54 {
                lemma_pow2_strictly_increases(54, shift);
            }
            lemma_halved_small(significand(bits) as nat, shift);
        }
        return sign;
    }
    let m: u64 = FRACTION_SPAN + f;
    let shift: u64 = if e < 926 - 29 {
        926 - e
    } else {
        29
    };
    assert(shift == single_scale(bits) - scale(bits));
    assert(29 <= shift <= 53);
    let d: u64 = power_of_two(shift as u32);
    proof {
        lemma_pow2_pos(shift as nat);
        if shift < 53 {
            lemma_pow2_strictly_increases(shift as nat, 53);
        }
        lemma_halved_bound(m as nat, shift as nat);
    }
    let q: u64 = m / d;
    let rest: u64 = m % d;
    let rounded: u64 = if 2 * rest > d || (2 * rest == d && q % 2 == 1) {
        q + 1
    } else {
        q
    };
    assert(rounded == single_significand(bits));
    if rounded == 0 {
        return sign;
    }
    // the scale of single precision, offset by 149 so that it is not negative
    let offset: u64 = if e < 926 - 29 {
        0
    } else {
        e - 897
    };
    assert(offset == single_scale(bits) + 149);
    if offset > 253 || (offset == 253 && rounded == 0x100_0000) {
        return sign + INFINITY;
    }
    let whole: u64 = from_magnitude(rounded);
    proof {
        lemma_bit_length_bounds(rounded as nat);
        let k = bit_length(rounded as nat);
        if k > 25 {
            if k - 1 > 25 {
                lemma_pow2_strictly_increases(25, (k - 1) as nat);
            }
            assert(false);
        }
        let s = (53 - k) as nat;
        let p = pow2(s) as int;
        lemma_pow2_pos(s);
        lemma_pow2_adds(k, s);
        lemma_pow2_adds((k - 1) as nat, s);
        let hi = pow2(k) as int;
        let lo = pow2((k - 1) as nat) as int;
        assert(rounded * p < hi * p) by (nonlinear_arith)
            requires
                rounded < hi,
                p > 0,
        ;
        assert(lo * p <= rounded * p) by (nonlinear_arith)
            requires
                lo <= rounded,
                p > 0,
        ;
        assert(whole >= 1023 * FRACTION_SPAN);
        assert(whole < 1048 * FRACTION_SPAN);
    }
    if offset >= 149 {
        sign + whole + (offset - 149) * FRACTION_SPAN
    } else {
        sign + whole - (149 - offset) * FRACTION_SPAN
    }
}

} // verus!
