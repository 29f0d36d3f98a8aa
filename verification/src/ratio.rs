//! Quotients of natural numbers as doubles: how a clock that counts whole
//! nanoseconds is read in milliseconds, seconds and ticks.

use crate::number::{exponent, finite, fraction, scale, significand, FRACTION_SPAN, SIGN_BIT};
use vstd::arithmetic::div_mod::*;
use vstd::arithmetic::power2::*;
use vstd::prelude::*;

verus! {

/// How often `m` is doubled until it is at least `floor`.
pub open spec fn doublings(m: nat, floor: nat) -> nat
    decreases
            (if m < floor {
                floor - m
            } else {
                0
            }),
{
    if m == 0 || m >= floor {
        0
    } else {
        1 + doublings(2 * m, floor)
    }
}

/// The pattern of the double nearest to `n / d`, a tie going to the even
/// significand, for a quotient below `2^53` that is no less than the
/// least normal double.
///
/// With `s` the doublings that bring `n / d` into `2^52..2^53`, the
/// significand is `n * 2^s / d`, rounded, and the power of two that
/// multiplies it is `-s`.
pub open spec fn quotient(n: nat, d: nat) -> int {
    if n == 0 || d == 0 {
        0
    } else {
        let s = doublings(n, FRACTION_SPAN as nat * d);
        let m = n * pow2(s);
        let q = m / d;
        let r = m % d;
        let up: int = if 2 * r > d || (2 * r == d && q % 2 == 1) {
            1
        } else {
            0
        };
        (1075 - s) * FRACTION_SPAN + (q - FRACTION_SPAN) + up
    }
}

/// The double nearest to `n / d`, for a quotient below `2^53`.
pub fn ratio(n: u128, d: u64) -> (r: u64)
    requires
        0 < d,
        n < 0x20_0000_0000_0000 * d,
    ensures
        r == quotient(n as nat, d as nat),
        finite(r),
        r < SIGN_BIT,
{
    if n == 0 {
        return 0;
    }
    assert(FRACTION_SPAN == 0x10_0000_0000_0000);
    let floor: u128 = 0x10_0000_0000_0000 * (d as u128);
    let mut m: u128 = n;
    let mut s: u64 = 0;
    proof {
        lemma2_to64();
        lemma2_to64_rest();
        lemma_pow2_adds(64, 52);
    }
    while m < floor
        invariant
            0 < d,
            floor == FRACTION_SPAN * d,
            0 < m < 2 * floor,
            0 < n,
            m == n * pow2(s as nat),
            doublings(n as nat, floor as nat) == s + doublings(m as nat, floor as nat),
            s <= 116,
            pow2(116) == 0x10_0000_0000_0000_0000_0000_0000_0000,
        decreases
                (if m < floor {
                    floor - m
                } else {
                    0
                }),
    {
        proof {
            let p = pow2(s as nat) as int;
            let nn = n as int;
            lemma_pow2_pos(s as nat);
            assert(p <= nn * p) by (nonlinear_arith)
                requires
                    nn >= 1,
                    p > 0,
            ;
            if s >= 116 {
                if s > 116 {
                    lemma_pow2_strictly_increases(116, s as nat);
                }
                assert(false);
            }
            lemma_pow2_unfold((s + 1) as nat);
            assert(nn * (2 * p) == 2 * (nn * p)) by (nonlinear_arith);
        }
        m = 2 * m;
        s = s + 1;
    }
    let wide: u128 = d as u128;
    let q: u128 = m / wide;
    let r: u128 = m % wide;
    proof {
        let dd = d as int;
        let mm = m as int;
        lemma_fundamental_div_mod(mm, dd);
        assert(q < 0x20_0000_0000_0000) by (nonlinear_arith)
            requires
                mm < 0x20_0000_0000_0000 * dd,
                mm == dd * q + r,
                0 <= r < dd,
                dd > 0,
        ;
        assert(q >= 0x10_0000_0000_0000) by (nonlinear_arith)
            requires
                mm >= 0x10_0000_0000_0000 * dd,
                mm == dd * q + r,
                0 <= r < dd,
                dd > 0,
        ;
    }
    let up: u64 = if 2 * r > wide || (2 * r == wide && q % 2 == 1) {
        1
    } else {
        0
    };
    let bits: u64 = (1075 - s) * FRACTION_SPAN + (q as u64 - FRACTION_SPAN) + up;
    assert(959 * FRACTION_SPAN <= bits <= 1076 * FRACTION_SPAN);
    bits
}

/// Doubling brings a number into the range from `floor` to its double:
/// a number that is there already is not doubled.
pub proof fn law_doublings_reach_the_floor(n: nat, floor: nat)
    requires
        0 < n < 2 * floor,
    ensures
        floor <= n * pow2(doublings(n, floor)) < 2 * floor,
        n >= floor ==> doublings(n, floor) == 0,
    decreases
            (if n < floor {
                floor - n
            } else {
                0
            }),
{
    lemma2_to64();
    if n < floor {
        law_doublings_reach_the_floor(2 * n, floor);
        let s = doublings(2 * n, floor);
        let p = pow2(s) as int;
        lemma_pow2_unfold(s + 1);
        assert(doublings(n, floor) == s + 1);
        assert(pow2(s + 1) == 2 * p);
        assert((2 * n) * p == n * (2 * p)) by (nonlinear_arith);
    } else {
        assert(doublings(n, floor) == 0);
        assert(n * pow2(0) == n) by (nonlinear_arith)
            requires
                pow2(0) == 1,
        ;
    }
}

/// The quotient as a double is nearest: with `s` the doublings that bring
/// `n / d` into `2^52..2^53`, the double is a whole number `w` of units of
/// `2^-s`, and `w * d` is at most half of `d` from `n * 2^s`.
pub proof fn law_quotient_is_nearest(n: nat, d: nat)
    requires
        0 < n,
        0 < d,
        n < 0x20_0000_0000_0000 * d,
        doublings(n, FRACTION_SPAN as nat * d) <= 1074,
    ensures
        ({
            let s = doublings(n, FRACTION_SPAN as nat * d);
            let bits = quotient(n, d) as u64;
            let w = significand(bits) * pow2((scale(bits) + s) as nat);
            &&& bits == quotient(n, d)
            &&& finite(bits)
            &&& bits < SIGN_BIT
            &&& -s <= scale(bits) <= 1 - s
            &&& -d <= 2 * (w * d - n * pow2(s)) <= d
        }),
{
    let floor = FRACTION_SPAN as nat * d;
    let s = doublings(n, floor);
    law_doublings_reach_the_floor(n, floor);
    lemma2_to64();
    let m = (n * pow2(s)) as int;
    let dd = d as int;
    let q = m / dd;
    let r = m % dd;
    lemma_fundamental_div_mod(m, dd);
    assert(q < 0x20_0000_0000_0000) by (nonlinear_arith)
        requires
            m < 0x20_0000_0000_0000 * dd,
            m == dd * q + r,
            0 <= r < dd,
            dd > 0,
    ;
    assert(q >= 0x10_0000_0000_0000) by (nonlinear_arith)
        requires
            m >= 0x10_0000_0000_0000 * dd,
            m == dd * q + r,
            0 <= r < dd,
            dd > 0,
    ;
    let up: int = if 2 * r > d || (2 * r == d && q % 2 == 1) {
        1
    } else {
        0
    };
    let bits = quotient(n, d) as u64;
    assert(quotient(n, d) == (1075 - s) * 0x10_0000_0000_0000 + (q - 0x10_0000_0000_0000) + up);
    assert((q + up) * dd == q * dd + up * dd) by (nonlinear_arith);
    assert(q * dd == dd * q) by (nonlinear_arith);
    if q + up < 0x20_0000_0000_0000 {
        assert(exponent(bits) == 1075 - s);
        assert(fraction(bits) == q + up - 0x10_0000_0000_0000);
        let sig = significand(bits);
        let unit = pow2((scale(bits) + s) as nat) as int;
        assert(sig == q + up);
        assert(scale(bits) + s == 0);
        assert(unit == 1);
        assert(sig * unit == q + up) by (nonlinear_arith)
            requires
                sig == q + up,
                unit == 1,
        ;
    } else {
        assert(bits == (1076 - s) * 0x10_0000_0000_0000);
        assert(exponent(bits) == 1076 - s);
        assert(fraction(bits) == 0);
        let sig = significand(bits);
        let unit = pow2((scale(bits) + s) as nat) as int;
        assert(sig == 0x10_0000_0000_0000);
        assert(scale(bits) + s == 1);
        assert(unit == 2);
        assert(sig * unit == q + up) by (nonlinear_arith)
            requires
                sig * 2 == q + up,
                unit == 2,
        ;
    }
}

} // verus!
