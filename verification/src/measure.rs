//! What the patterns of numbers mean.
//!
//! The value of a finite number, in units of the least positive double, is
//! an integer. The laws here say of the order, of the whole part, of the
//! rounding to whole numbers and to single precision, and of the doubles
//! of integers, that they are those of the values.

use crate::number::{
    below, bit_length, ceil_int, encoding, exponent, finite, floor_int, fraction, fractional,
    half_or_more, halved, int_encoding, lemma_bit_length_bounds, lemma_bit_length_limit,
    lemma_halved_bound, lemma_small_whole, magnitude, more_than_half, negative, round_int, same,
    scale, significand, single_of, single_scale, single_significand, truncation, whole,
    whole_number, FRACTION_SPAN, SIGN_BIT,
};
use vstd::arithmetic::div_mod::*;
use vstd::arithmetic::mul::lemma_mul_strict_inequality;
use vstd::arithmetic::power2::*;
use vstd::prelude::*;

verus! {

/// The magnitude of a finite number in units of `2^-1074`, the least
/// positive double: an integer.
pub open spec fn scaled_magnitude(bits: u64) -> int {
    significand(bits) * pow2((scale(bits) + 1074) as nat)
}

/// The value of a finite number in units of `2^-1074`.
pub open spec fn scaled(bits: u64) -> int {
    if negative(bits) {
        -scaled_magnitude(bits)
    } else {
        scaled_magnitude(bits)
    }
}

/// The pattern of a number is its sign, its exponent and its fraction.
proof fn lemma_fields(bits: u64)
    ensures
        0 <= exponent(bits) < 2048,
        0 <= fraction(bits) < FRACTION_SPAN,
        magnitude(bits) == exponent(bits) * FRACTION_SPAN + fraction(bits),
{
}

/// The magnitude of a finite number lies between the powers of two that
/// its exponent names.
proof fn lemma_magnitude_bounds(bits: u64)
    requires
        finite(bits),
    ensures
        0 <= scaled_magnitude(bits) < pow2((52 + exponent(bits)) as nat),
        exponent(bits) >= 1 ==> scaled_magnitude(bits) >= pow2((51 + exponent(bits)) as nat),
        scaled_magnitude(bits) == 0 <==> magnitude(bits) == 0,
{
    lemma_fields(bits);
    lemma2_to64();
    lemma2_to64_rest();
    let e = exponent(bits);
    let m = significand(bits);
    if e == 0 {
        assert(pow2(0) == 1);
        assert(m * 1 == m);
    } else {
        let k = (e - 1) as nat;
        let p = pow2(k) as int;
        lemma_pow2_pos(k);
        lemma_pow2_adds(53, k);
        lemma_pow2_adds(52, k);
        assert(m * p < 0x20_0000_0000_0000 * p) by (nonlinear_arith)
            requires
                m < 0x20_0000_0000_0000,
                p > 0,
        ;
        assert(m * p >= 0x10_0000_0000_0000 * p) by (nonlinear_arith)
            requires
                m >= 0x10_0000_0000_0000,
                p > 0,
        ;
        assert(0x10_0000_0000_0000 * p > 0) by (nonlinear_arith)
            requires
                p > 0,
        ;
    }
}

/// Of two finite numbers, the one of the greater pattern is the greater in
/// magnitude.
proof fn lemma_magnitude_grows(p: u64, q: u64)
    requires
        finite(p),
        finite(q),
        magnitude(p) < magnitude(q),
    ensures
        scaled_magnitude(p) < scaled_magnitude(q),
{
    lemma_fields(p);
    lemma_fields(q);
    let ep = exponent(p);
    let eq = exponent(q);
    if ep == eq {
        let k = (scale(p) + 1074) as nat;
        lemma_pow2_pos(k);
        lemma_mul_strict_inequality(significand(p), significand(q), pow2(k) as int);
    } else {
        assert(ep < eq) by {
            if ep > eq {
                assert(ep * FRACTION_SPAN >= (eq + 1) * FRACTION_SPAN) by (nonlinear_arith)
                    requires
                        ep >= eq + 1,
                ;
            }
        }
        lemma_magnitude_bounds(p);
        lemma_magnitude_bounds(q);
        if 52 + ep < 51 + eq {
            lemma_pow2_strictly_increases((52 + ep) as nat, (51 + eq) as nat);
        }
    }
}

/// Numbers are ordered as their values are, and equal where their values
/// are equal.
pub proof fn law_order_is_by_value(a: u64, b: u64)
    requires
        finite(a),
        finite(b),
    ensures
        below(a, b) <==> scaled(a) < scaled(b),
        same(a, b) <==> scaled(a) == scaled(b),
{
    lemma_fields(a);
    lemma_fields(b);
    lemma_magnitude_bounds(a);
    lemma_magnitude_bounds(b);
    if magnitude(a) < magnitude(b) {
        lemma_magnitude_grows(a, b);
    } else if magnitude(b) < magnitude(a) {
        lemma_magnitude_grows(b, a);
    } else {
        assert(exponent(a) == exponent(b) && fraction(a) == fraction(b)) by {
            let ea = exponent(a);
            let eb = exponent(b);
            if ea < eb {
                assert(eb * FRACTION_SPAN >= (ea + 1) * FRACTION_SPAN) by (nonlinear_arith)
                    requires
                        eb >= ea + 1,
                ;
            } else if eb < ea {
                assert(ea * FRACTION_SPAN >= (eb + 1) * FRACTION_SPAN) by (nonlinear_arith)
                    requires
                        ea >= eb + 1,
                ;
            }
        }
    }
}

/// The whole part of a finite number is the whole part of its magnitude.
pub proof fn law_whole_is_the_floor(bits: u64)
    requires
        finite(bits),
    ensures
        whole(bits) == scaled_magnitude(bits) / (pow2(1074) as int),
        fractional(bits) <==> scaled_magnitude(bits) % (pow2(1074) as int) != 0,
        half_or_more(bits) <==> 2 * (scaled_magnitude(bits) % (pow2(1074) as int)) >= pow2(1074),
        more_than_half(bits) <==> 2 * (scaled_magnitude(bits) % (pow2(1074) as int)) > pow2(
            1074,
        ),
{
    lemma_fields(bits);
    let m = significand(bits);
    let unit = pow2(1074) as int;
    lemma_pow2_pos(1074);
    if scale(bits) >= 0 {
        let k = scale(bits) as nat;
        lemma_pow2_adds(k, 1074);
        lemma_pow2_pos(k);
        let p = pow2(k) as int;
        assert(m * (p * unit) == (m * p) * unit) by (nonlinear_arith);
        assert(m * p >= 0) by (nonlinear_arith)
            requires
                m >= 0,
                p > 0,
        ;
        lemma_div_by_multiple(m * p, unit);
        lemma_mod_multiples_basic(m * p, unit);
    } else {
        let s = (-scale(bits)) as nat;
        let k = (1074 - s) as nat;
        lemma_pow2_adds(k, s);
        lemma_pow2_pos(k);
        lemma_pow2_pos(s);
        let x = pow2(k) as int;
        let d = pow2(s) as int;
        assert(unit == x * d);
        lemma_div_multiples_vanish_quotient(x, m, d);
        assert(m * x == x * m) by (nonlinear_arith);
        lemma_fundamental_div_mod(m, d);
        lemma_fundamental_div_mod(x * m, x * d);
        let q = m / d;
        assert((x * m) % (x * d) == x * (m % d)) by (nonlinear_arith)
            requires
                x * m == (x * d) * q + (x * m) % (x * d),
                m == d * q + m % d,
        ;
        let r = m % d;
        assert(x * r == 0 <==> r == 0) by (nonlinear_arith)
            requires
                x > 0,
        ;
        assert(2 * (x * r) >= x * d <==> 2 * r >= d) by (nonlinear_arith)
            requires
                x > 0,
        ;
        assert(2 * (x * r) > x * d <==> 2 * r > d) by (nonlinear_arith)
            requires
                x > 0,
        ;
    }
}

/// The floor, the ceiling and the rounding of a finite number are those of
/// its value: with `u` for `2^1074` and `v` for the value in units of `1/u`,
/// they are `floor(v / u)`, `-floor(-v / u)` and `floor((2 v + u) / (2 u))`.
pub proof fn law_rounding_is_by_value(bits: u64)
    requires
        finite(bits),
    ensures
        floor_int(bits) == scaled(bits) / (pow2(1074) as int),
        ceil_int(bits) == -((-scaled(bits)) / (pow2(1074) as int)),
        round_int(bits) == (2 * scaled(bits) + pow2(1074)) / (2 * pow2(1074) as int),
{
    law_whole_is_the_floor(bits);
    lemma_pow2_pos(1074);
    let u = pow2(1074) as int;
    let v = scaled_magnitude(bits);
    let w = whole(bits);
    let r = v % u;
    lemma_fundamental_div_mod(v, u);
    assert(v == u * w + r);
    assert(0 <= r < u);
    if negative(bits) {
        lemma_fundamental_div_mod_converse(v, u, w, r);
        if r == 0 {
            assert(-v == (-w) * u + 0) by (nonlinear_arith)
                requires
                    v == u * w + r,
                    r == 0,
            ;
            lemma_fundamental_div_mod_converse(-v, u, -w, 0);
        } else {
            assert(-v == (-w - 1) * u + (u - r)) by (nonlinear_arith)
                requires
                    v == u * w + r,
            ;
            lemma_fundamental_div_mod_converse(-v, u, -w - 1, u - r);
        }
        if 2 * r > u {
            assert(2 * (-v) + u == (-w - 1) * (2 * u) + (3 * u - 2 * r)) by (nonlinear_arith)
                requires
                    v == u * w + r,
            ;
            lemma_fundamental_div_mod_converse(2 * (-v) + u, 2 * u, -w - 1, 3 * u - 2 * r);
        } else {
            assert(2 * (-v) + u == (-w) * (2 * u) + (u - 2 * r)) by (nonlinear_arith)
                requires
                    v == u * w + r,
            ;
            lemma_fundamental_div_mod_converse(2 * (-v) + u, 2 * u, -w, u - 2 * r);
        }
    } else {
        if r == 0 {
            assert(-v == (-w) * u + 0) by (nonlinear_arith)
                requires
                    v == u * w + r,
                    r == 0,
            ;
            lemma_fundamental_div_mod_converse(-v, u, -w, 0);
        } else {
            assert(-v == (-w - 1) * u + (u - r)) by (nonlinear_arith)
                requires
                    v == u * w + r,
            ;
            lemma_fundamental_div_mod_converse(-v, u, -w - 1, u - r);
        }
        if 2 * r >= u {
            assert(2 * v + u == (w + 1) * (2 * u) + (2 * r - u)) by (nonlinear_arith)
                requires
                    v == u * w + r,
            ;
            lemma_fundamental_div_mod_converse(2 * v + u, 2 * u, w + 1, 2 * r - u);
        } else {
            assert(2 * v + u == w * (2 * u) + (2 * r + u)) by (nonlinear_arith)
                requires
                    v == u * w + r,
            ;
            lemma_fundamental_div_mod_converse(2 * v + u, 2 * u, w, 2 * r + u);
        }
    }
}

/// An integer below `2^53` in magnitude is a double, and comes back from
/// it unchanged.
pub proof fn law_integers_round_trip(n: int)
    requires
        -0x20_0000_0000_0000 < n < 0x20_0000_0000_0000,
    ensures
        0 <= int_encoding(n) <= u64::MAX,
        finite(int_encoding(n) as u64),
        truncation(int_encoding(n) as u64) == n,
        whole_number(int_encoding(n) as u64),
{
    let a: nat = if n < 0 {
        (-n) as nat
    } else {
        n as nat
    };
    if a == 0 {
        assert(encoding(0) == 0);
        lemma_small_whole(0);
        lemma2_to64_rest();
        lemma_pow2_strictly_increases(54, 1074);
        lemma_small_mod(0, pow2(1074));
    } else {
        lemma_bit_length_bounds(a);
        lemma2_to64();
        lemma2_to64_rest();
        let k = bit_length(a);
        if k > 53 {
            if k - 1 > 53 {
                lemma_pow2_strictly_increases(53, (k - 1) as nat);
            }
            assert(false);
        }
        let s = (53 - k) as nat;
        let p = pow2(s) as int;
        lemma_pow2_pos(s);
        lemma_pow2_adds(k, s);
        lemma_pow2_adds((k - 1) as nat, s);
        let hi = pow2(k) as int;
        let lo = pow2((k - 1) as nat) as int;
        let m = a * p;
        assert(m < hi * p) by (nonlinear_arith)
            requires
                m == a * p,
                a < hi,
                p > 0,
        ;
        assert(lo * p <= m) by (nonlinear_arith)
            requires
                m == a * p,
                lo <= a,
                p > 0,
        ;
        let bits_int = (1022 + k) * FRACTION_SPAN + (m - FRACTION_SPAN);
        assert(encoding(a) == bits_int);
        let sign_part: int = if n < 0 {
            SIGN_BIT as int
        } else {
            0
        };
        let b = (sign_part + bits_int) as u64;
        assert(int_encoding(n) == sign_part + bits_int);
        assert(b as int == sign_part + bits_int);
        assert(b as int / FRACTION_SPAN as int == (if n < 0 {
            2048int
        } else {
            0
        }) + 1022 + k);
        assert(exponent(b) == 1022 + k);
        assert(fraction(b) == m - FRACTION_SPAN);
        assert(significand(b) == m);
        assert(scale(b) == k - 53);
        if k == 53 {
            assert(p == 1);
            assert(a * p == a) by (nonlinear_arith)
                requires
                    p == 1,
            ;
            assert(whole(b) == m * 1);
        } else {
            lemma_div_by_multiple(a as int, p);
            lemma_mod_multiples_basic(a as int, p);
            assert(m == a * p);
            assert(a * p == p * a) by (nonlinear_arith);
            assert(whole(b) == a);
            assert(m % p == 0);
        }
        assert(negative(b) == (n < 0));
    }
}

/// The pattern of the double of a natural number below `2^53` has no sign.
proof fn lemma_encoding_below_sign(a: nat)
    requires
        a < 0x20_0000_0000_0000,
    ensures
        0 <= encoding(a) < SIGN_BIT,
{
    if a > 0 {
        lemma_bit_length_bounds(a);
        lemma2_to64();
        lemma2_to64_rest();
        let k = bit_length(a);
        if k > 53 {
            if k - 1 > 53 {
                lemma_pow2_strictly_increases(53, (k - 1) as nat);
            }
            assert(false);
        }
        let s = (53 - k) as nat;
        let p = pow2(s) as int;
        lemma_pow2_pos(s);
        lemma_pow2_adds(k, s);
        lemma_pow2_adds((k - 1) as nat, s);
        let hi = pow2(k) as int;
        let lo = pow2((k - 1) as nat) as int;
        assert(a * p < hi * p) by (nonlinear_arith)
            requires
                a < hi,
                p > 0,
        ;
        assert(lo * p <= a * p) by (nonlinear_arith)
            requires
                lo <= a,
                p > 0,
        ;
    }
}

/// The double of an integer below `2^53` in magnitude has the value of the
/// integer.
pub proof fn law_small_integers_are_exact(n: int)
    requires
        -0x20_0000_0000_0000 < n < 0x20_0000_0000_0000,
    ensures
        scaled(int_encoding(n) as u64) == n * pow2(1074),
{
    law_integers_round_trip(n);
    let bits = int_encoding(n) as u64;
    law_whole_is_the_floor(bits);
    lemma_pow2_pos(1074);
    let v = scaled_magnitude(bits);
    let unit = pow2(1074) as int;
    lemma_fundamental_div_mod(v, unit);
    assert(v == unit * whole(bits));
    assert(unit * whole(bits) == whole(bits) * unit) by (nonlinear_arith);
    if n < 0 {
        assert(encoding((-n) as nat) < SIGN_BIT) by {
            lemma_encoding_below_sign((-n) as nat);
        }
        assert(negative(bits));
        assert(whole(bits) == -n);
        assert((-n) * unit == -(n * unit)) by (nonlinear_arith);
    } else {
        assert(encoding(n as nat) < SIGN_BIT) by {
            lemma_encoding_below_sign(n as nat);
        }
        assert(!negative(bits));
        assert(whole(bits) == n);
    }
}

/// The integer that the double of a natural number below `2^64` is: the
/// number itself where it has 53 binary digits at most, and else the
/// number rounded to 53 binary digits, a tie going to the even one.
pub open spec fn rounded_to_double(a: nat) -> int {
    let k = bit_length(a);
    if k <= 53 {
        a as int
    } else {
        (halved(a, (k - 53) as nat) * pow2((k - 53) as nat)) as int
    }
}

/// The double of a natural number below `2^64` has the value of the number
/// rounded to 53 binary digits.
pub proof fn law_encoding_is_by_value(a: nat)
    requires
        a < 0x1_0000_0000_0000_0000,
    ensures
        0 <= encoding(a) < SIGN_BIT,
        finite(encoding(a) as u64),
        scaled_magnitude(encoding(a) as u64) == rounded_to_double(a) * pow2(1074),
{
    lemma2_to64();
    lemma2_to64_rest();
    if a == 0 {
        assert(bit_length(0) == 0);
        assert(pow2(0) == 1);
        assert(significand(0) == 0);
        assert(0 * pow2((scale(0) + 1074) as nat) == 0);
        assert(0 * pow2(1074) == 0);
    } else {
        lemma_bit_length_limit(a);
        lemma_bit_length_bounds(a);
        let k = bit_length(a);
        // the significand `wide`, of 53 binary digits or `2^53`, and the scale `t` of its units
        let (wide, t): (int, int) = if k <= 53 {
            let s = (53 - k) as nat;
            let p = pow2(s) as int;
            lemma_pow2_pos(s);
            lemma_pow2_adds(k, s);
            lemma_pow2_adds((k - 1) as nat, s);
            let hi = pow2(k) as int;
            let lo = pow2((k - 1) as nat) as int;
            assert(a * p < hi * p) by (nonlinear_arith)
                requires
                    a < hi,
                    p > 0,
            ;
            assert(lo * p <= a * p) by (nonlinear_arith)
                requires
                    lo <= a,
                    p > 0,
            ;
            (a * p, k - 53)
        } else {
            let s = (k - 53) as nat;
            let d = pow2(s) as int;
            lemma_pow2_pos(s);
            lemma_pow2_adds(53, s);
            lemma_pow2_adds(52, s);
            lemma_fundamental_div_mod(a as int, d);
            let q = a as int / d;
            let r = a as int % d;
            assert(q < 0x20_0000_0000_0000) by (nonlinear_arith)
                requires
                    a < 0x20_0000_0000_0000 * d,
                    a == d * q + r,
                    0 <= r < d,
                    d > 0,
            ;
            assert(q >= 0x10_0000_0000_0000) by (nonlinear_arith)
                requires
                    a >= 0x10_0000_0000_0000 * d,
                    a == d * q + r,
                    0 <= r < d,
                    d > 0,
            ;
            (halved(a, s) as int, k - 53)
        };
        assert(0x10_0000_0000_0000 <= wide <= 0x20_0000_0000_0000);
        let pattern = (1022 + k) * FRACTION_SPAN + (wide - FRACTION_SPAN);
        assert(encoding(a) == pattern);
        assert((1022 + k) * FRACTION_SPAN <= 1086 * FRACTION_SPAN) by (nonlinear_arith)
            requires
                k <= 64,
        ;
        assert((1022 + k) * FRACTION_SPAN >= 1023 * FRACTION_SPAN) by (nonlinear_arith)
            requires
                k >= 1,
        ;
        let b = pattern as u64;
        let unit = pow2(1074) as int;
        if wide == 0x20_0000_0000_0000 {
            // the rounding carried: the significand is `2^52` at the next scale
            lemma_fundamental_div_mod_converse(
                pattern,
                FRACTION_SPAN as int,
                (1023 + k) as int,
                0,
            );
            assert(exponent(b) == 1023 + k);
            assert(fraction(b) == 0);
            let up = (t + 1 + 1074) as nat;
            lemma_pow2_adds(1, (t + 1074) as nat);
            lemma_pow2_adds(t as nat, 1074);
            let rest = pow2((t + 1074) as nat) as int;
            assert(0x10_0000_0000_0000 * (2 * rest) == 0x20_0000_0000_0000 * rest)
                by (nonlinear_arith);
            assert(wide * (pow2(t as nat) * unit) == (wide * pow2(t as nat)) * unit)
                by (nonlinear_arith);
        } else {
            lemma_fundamental_div_mod_converse(
                pattern,
                FRACTION_SPAN as int,
                (1022 + k) as int,
                wide - FRACTION_SPAN,
            );
            assert(exponent(b) == 1022 + k);
            assert(fraction(b) == wide - FRACTION_SPAN);
            assert(significand(b) == wide);
            if k <= 53 {
                let s = (53 - k) as nat;
                let p = pow2(s) as int;
                lemma_pow2_adds(s, (k - 53 + 1074) as nat);
                let rest = pow2((k - 53 + 1074) as nat) as int;
                assert((a * p) * rest == a * (p * rest)) by (nonlinear_arith);
            } else {
                lemma_pow2_adds(t as nat, 1074);
                assert(wide * (pow2(t as nat) * unit) == (wide * pow2(t as nat)) * unit)
                    by (nonlinear_arith);
            }
        }
    }
}

/// The double of a natural number below `2^64` is at most half a unit of
/// its last binary digit from the number.
pub proof fn law_encoding_is_nearest(a: nat)
    requires
        a < 0x1_0000_0000_0000_0000,
    ensures
        bit_length(a) <= 53 ==> rounded_to_double(a) == a,
        bit_length(a) > 53 ==> -pow2((bit_length(a) - 53) as nat) <= 2 * (rounded_to_double(a)
            - a) <= pow2((bit_length(a) - 53) as nat),
{
    if bit_length(a) > 53 {
        law_halved_is_nearest(a, (bit_length(a) - 53) as nat);
    }
}

/// Rounding is to the nearest: the rounded quotient is at most half a
/// divisor from the dividend.
pub proof fn law_halved_is_nearest(a: nat, shift: nat)
    ensures
        -pow2(shift) <= 2 * (halved(a, shift) * pow2(shift) - a) <= pow2(shift),
{
    let d = pow2(shift) as int;
    lemma_pow2_pos(shift);
    lemma_fundamental_div_mod(a as int, d);
    let q = a as int / d;
    let r = a as int % d;
    assert((q + 1) * d == q * d + d) by (nonlinear_arith);
    assert(q * d == d * q) by (nonlinear_arith);
}

/// The number of single precision nearest to a finite number, unless it is
/// beyond single precision, has the sign of the number, and its magnitude
/// is the rounded significand at the scale of single precision.
pub proof fn law_single_is_by_value(bits: u64)
    requires
        finite(bits),
        single_scale(bits) < 104 || (single_scale(bits) == 104 && single_significand(bits)
            < 0x100_0000),
    ensures
        finite(single_of(bits)),
        negative(single_of(bits)) == negative(bits),
        scaled_magnitude(single_of(bits)) == single_significand(bits) * pow2(
            (single_scale(bits) + 1074) as nat,
        ),
{
    lemma_fields(bits);
    lemma2_to64();
    lemma2_to64_rest();
    let m = single_significand(bits);
    let t = single_scale(bits);
    let shift = (t - scale(bits)) as nat;
    lemma_halved_bound(significand(bits) as nat, shift);
    let sign: int = if negative(bits) {
        SIGN_BIT as int
    } else {
        0
    };
    if m == 0 {
        assert(pow2(0) == 1);
        assert(significand(sign as u64) == 0);
        assert(0 * pow2((scale(sign as u64) + 1074) as nat) == 0);
    } else {
        lemma_bit_length_bounds(m);
        let k = bit_length(m);
        if k > 25 {
            if k - 1 > 25 {
                lemma_pow2_strictly_increases(25, (k - 1) as nat);
            }
            assert(false);
        }
        let s = (53 - k) as nat;
        let p = pow2(s) as int;
        lemma_pow2_pos(s);
        lemma_pow2_adds(k, s);
        lemma_pow2_adds((k - 1) as nat, s);
        let hi = pow2(k) as int;
        let lo = pow2((k - 1) as nat) as int;
        let wide = m * p;
        assert(wide < hi * p) by (nonlinear_arith)
            requires
                wide == m * p,
                m < hi,
                p > 0,
        ;
        assert(lo * p <= wide) by (nonlinear_arith)
            requires
                wide == m * p,
                lo <= m,
                p > 0,
        ;
        let e = 1022 + k + t;
        let pattern = sign + (1022 + k) * FRACTION_SPAN + (wide - FRACTION_SPAN) + t
            * FRACTION_SPAN;
        assert(encoding(m) == (1022 + k) * FRACTION_SPAN + (wide - FRACTION_SPAN));
        assert(pattern == sign + e * FRACTION_SPAN + (wide - FRACTION_SPAN)) by (nonlinear_arith)
            requires
                pattern == sign + (1022 + k) * FRACTION_SPAN + (wide - FRACTION_SPAN) + t
                    * FRACTION_SPAN,
                e == 1022 + k + t,
        ;
        assert(1 <= e <= 2046);
        assert(e * FRACTION_SPAN <= 2046 * FRACTION_SPAN) by (nonlinear_arith)
            requires
                e <= 2046,
        ;
        assert(e * FRACTION_SPAN >= FRACTION_SPAN) by (nonlinear_arith)
            requires
                e >= 1,
        ;
        let b = pattern as u64;
        assert(b == single_of(bits));
        assert(b as int == pattern);
        assert(pattern / FRACTION_SPAN as int == (if negative(bits) {
            2048int
        } else {
            0
        }) + e) by {
            let top: int = if negative(bits) {
                2048
            } else {
                0
            };
            assert(pattern == (top + e) * FRACTION_SPAN + (wide - FRACTION_SPAN))
                by (nonlinear_arith)
                requires
                    pattern == sign + e * FRACTION_SPAN + (wide - FRACTION_SPAN),
                    sign == top * FRACTION_SPAN,
            ;
            lemma_fundamental_div_mod_converse(
                pattern,
                FRACTION_SPAN as int,
                top + e,
                wide - FRACTION_SPAN,
            );
        }
        assert(exponent(b) == e);
        assert(fraction(b) == wide - FRACTION_SPAN);
        assert(significand(b) == wide);
        assert(scale(b) + 1074 == k + t - 53 + 1074);
        let up = (t + 1074) as nat;
        lemma_pow2_adds(s, (k + t - 53 + 1074) as nat);
        assert(s + (k + t - 53 + 1074) == up);
        let rest = pow2((k + t - 53 + 1074) as nat) as int;
        assert((m * p) * rest == m * (p * rest)) by (nonlinear_arith);
    }
}

} // verus!
