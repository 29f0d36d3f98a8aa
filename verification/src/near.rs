//! Numbers that are a millionth apart at most count as equal.

use crate::measure::{scaled, scaled_magnitude};
use crate::number::{
    finite, negative, scale, significand, wide_power_of_two, FRACTION_SPAN, SIGN_BIT,
};
use vstd::arithmetic::div_mod::*;
use vstd::arithmetic::power2::*;
use vstd::prelude::*;

verus! {

/// The pattern of a millionth, `0.000001`: as a double it is
/// `0x10c6f7a0b5ed8d * 2^-72`.
pub const EPSILON: u64 = 0x3eb0_c6f7_a0b5_ed8d;

/// Between a millionth as a double and the double before it, the midpoint
/// in units of `2^-73`. A difference rounds to a double below a millionth
/// exactly where it is at most this midpoint, since a tie goes to the even
/// significand, which is that of the double before.
pub const MIDPOINT: u64 = 0x21_8def_416b_db19;

/// The midpoint lies half a step below a millionth as a double.
pub proof fn law_midpoint_is_half_a_step_below()
    ensures
        finite(EPSILON),
        !negative(EPSILON),
        scale(EPSILON) == -72,
        significand(EPSILON) % 2 == 1,
        MIDPOINT == 2 * significand(EPSILON) - 1,
{
}

/// Whether `m1 * 2^s1` is at most `m2 * 2^s2`.
pub fn at_most(m1: u128, s1: u32, m2: u128, s2: u32) -> (r: bool)
    ensures
        r == (m1 * pow2(s1 as nat) <= m2 * pow2(s2 as nat)),
{
    proof {
        lemma2_to64();
        lemma2_to64_rest();
        lemma_pow2_adds(64, 64);
    }
    if s1 >= s2 {
        let k: u32 = s1 - s2;
        let ghost p = pow2(k as nat) as int;
        let ghost base = pow2(s2 as nat) as int;
        let ghost a = m1 as int;
        let ghost b = m2 as int;
        proof {
            lemma_pow2_adds(k as nat, s2 as nat);
            lemma_pow2_pos(k as nat);
            lemma_pow2_pos(s2 as nat);
            assert(a * (p * base) == (a * p) * base) by (nonlinear_arith);
            assert((a * p) * base <= b * base <==> a * p <= b) by (nonlinear_arith)
                requires
                    base > 0,
            ;
        }
        if m1 == 0 {
            assert(a * p == 0) by (nonlinear_arith)
                requires
                    a == 0,
            ;
            true
        } else if k >= 128 {
            proof {
                if k > 128 {
                    lemma_pow2_strictly_increases(128, k as nat);
                }
                assert(a * p >= p) by (nonlinear_arith)
                    requires
                        a >= 1,
                        p > 0,
                ;
            }
            false
        } else {
            let d: u128 = wide_power_of_two(k);
            proof {
                lemma_fundamental_div_mod(b, p);
                let q = b / p;
                let r = b % p;
                assert(a * p <= b <==> a <= q) by (nonlinear_arith)
                    requires
                        b == p * q + r,
                        0 <= r < p,
                        p > 0,
                ;
            }
            m1 <= m2 / d
        }
    } else {
        let k: u32 = s2 - s1;
        let ghost p = pow2(k as nat) as int;
        let ghost base = pow2(s1 as nat) as int;
        let ghost a = m1 as int;
        let ghost b = m2 as int;
        proof {
            lemma_pow2_adds(k as nat, s1 as nat);
            lemma_pow2_pos(k as nat);
            lemma_pow2_pos(s1 as nat);
            assert(b * (p * base) == (b * p) * base) by (nonlinear_arith);
            assert(a * base <= (b * p) * base <==> a <= b * p) by (nonlinear_arith)
                requires
                    base > 0,
            ;
        }
        if m2 == 0 {
            assert(b * p == 0) by (nonlinear_arith)
                requires
                    b == 0,
            ;
            m1 == 0
        } else if k >= 128 {
            proof {
                if k > 128 {
                    lemma_pow2_strictly_increases(128, k as nat);
                }
                assert(b * p >= p) by (nonlinear_arith)
                    requires
                        b >= 1,
                        p > 0,
                ;
            }
            true
        } else {
            let d: u128 = wide_power_of_two(k);
            let q: u128 = m1 / d;
            let r: u128 = m1 % d;
            proof {
                lemma_fundamental_div_mod(a, p);
                assert(a <= b * p <==> (q < b || (q == b && r == 0))) by (nonlinear_arith)
                    requires
                        a == p * q + r,
                        0 <= r < p,
                        p > 0,
                ;
            }
            q < m2 || (q == m2 && r == 0)
        }
    }
}

/// Whether two numbers are a millionth apart at most: whether their
/// difference, were it rounded to the nearest double, would be below a
/// millionth in magnitude. The difference is taken in units of `2^-1074`,
/// in which every finite number is whole.
pub open spec fn near(a: u64, b: u64) -> bool {
    let d = scaled(a) - scaled(b);
    -(MIDPOINT * pow2(1001)) <= d <= MIDPOINT * pow2(1001)
}

/// The distance of two magnitudes `h` and `l`, which lie on the same side
/// of zero or on opposite sides.
pub open spec fn distance(h: int, l: int, opposite: bool) -> int {
    if opposite {
        h + l
    } else if h >= l {
        h - l
    } else {
        l - h
    }
}

/// Where one number has 59 binary digits or more below the last digit of
/// another, it does not decide whether the two are near: the other does.
proof fn lemma_far_apart(mh: int, sh: nat, ml: int, sl: nat)
    requires
        0x10_0000_0000_0000 <= mh < 0x20_0000_0000_0000,
        0 <= ml < 0x20_0000_0000_0000,
        sh > sl + 58,
    ensures
        ml * pow2(sl) < mh * pow2(sh),
        mh * pow2(sh) + ml * pow2(sl) <= MIDPOINT * pow2(1001) <==> mh * pow2(sh) <= MIDPOINT
            * pow2(1001),
        mh * pow2(sh) - ml * pow2(sl) <= MIDPOINT * pow2(1001) <==> mh * pow2(sh) <= MIDPOINT
            * pow2(1001),
{
    lemma2_to64();
    lemma2_to64_rest();
    let high = mh * pow2(sh);
    let low = ml * pow2(sl);
    let limit = MIDPOINT * pow2(1001);
    let q = pow2((sh - 6) as nat) as int;
    let ps = pow2(sl) as int;
    lemma_pow2_pos(sl);
    lemma_pow2_pos((sh - 6) as nat);
    lemma_pow2_adds(53, sl);
    if sl + 53 < sh - 6 {
        lemma_pow2_strictly_increases(sl + 53, (sh - 6) as nat);
    }
    assert(low < q) by (nonlinear_arith)
        requires
            low == ml * ps,
            0 <= ml < 0x20_0000_0000_0000,
            ps > 0,
            0x20_0000_0000_0000 * ps <= q,
    ;
    lemma_pow2_adds(6, (sh - 6) as nat);
    assert(high == (mh * 64) * q) by (nonlinear_arith)
        requires
            high == mh * pow2(sh),
            pow2(sh) == 64 * q,
    ;
    assert(high >= 0x400_0000_0000_0000 * q) by (nonlinear_arith)
        requires
            high == (mh * 64) * q,
            mh >= 0x10_0000_0000_0000,
            q > 0,
    ;
    if sh <= 1001 {
        let rest = pow2((1001 - sh) as nat) as int;
        lemma_pow2_pos((1001 - sh) as nat);
        lemma_pow2_adds((1001 - sh) as nat, sh);
        let c = MIDPOINT * rest;
        assert(c >= MIDPOINT) by (nonlinear_arith)
            requires
                c == MIDPOINT * rest,
                rest >= 1,
        ;
        assert(limit == (c * 64) * q) by (nonlinear_arith)
            requires
                limit == MIDPOINT * pow2(1001),
                pow2(1001) == rest * pow2(sh),
                pow2(sh) == 64 * q,
                c == MIDPOINT * rest,
        ;
        assert(high + q <= limit) by (nonlinear_arith)
            requires
                high == (mh * 64) * q,
                limit == (c * 64) * q,
                mh + 1 <= c,
                q > 0,
        ;
    } else {
        let j = pow2((sh - 1001) as nat) as int;
        let unit = pow2(1001) as int;
        lemma_pow2_pos(1001);
        lemma_pow2_adds((sh - 1001) as nat, 1001);
        lemma_pow2_unfold((sh - 1001) as nat);
        let half = pow2((sh - 1002) as nat) as int;
        let x = mh * j;
        assert(x == 2 * (mh * half)) by (nonlinear_arith)
            requires
                x == mh * j,
                j == 2 * half,
        ;
        assert(x != MIDPOINT);
        assert(high == x * unit) by (nonlinear_arith)
            requires
                high == mh * pow2(sh),
                pow2(sh) == j * unit,
                x == mh * j,
        ;
        if sh <= 1007 {
            if sh < 1007 {
                lemma_pow2_strictly_increases((sh - 6) as nat, 1001);
            }
            assert(q <= unit);
            if x < MIDPOINT {
                assert(high + unit <= limit) by (nonlinear_arith)
                    requires
                        high == x * unit,
                        limit == MIDPOINT * unit,
                        x + 1 <= MIDPOINT,
                        unit > 0,
                ;
            } else {
                assert(high - unit >= limit) by (nonlinear_arith)
                    requires
                        high == x * unit,
                        limit == MIDPOINT * unit,
                        x - 1 >= MIDPOINT,
                        unit > 0,
                ;
            }
        } else {
            if sh > 1008 {
                lemma_pow2_strictly_increases(1002, (sh - 6) as nat);
            }
            lemma_pow2_unfold(1002);
            assert(q >= 2 * unit);
            assert(high - q > limit) by (nonlinear_arith)
                requires
                    high >= 0x400_0000_0000_0000 * q,
                    limit == MIDPOINT * unit,
                    q >= 2 * unit,
                    unit > 0,
                    MIDPOINT < 0x40_0000_0000_0000,
            ;
        }
    }
}

/// Whether two magnitudes, the one with the greater scale first, are a
/// millionth apart at most.
fn close(mh: u64, sh: u32, ml: u64, sl: u32, opposite: bool) -> (r: bool)
    requires
        mh < 0x20_0000_0000_0000,
        ml < 0x20_0000_0000_0000,
        sl <= sh <= 2046,
        sh > 0 ==> mh >= 0x10_0000_0000_0000,
    ensures
        r == (distance(mh * pow2(sh as nat), ml * pow2(sl as nat), opposite) <= MIDPOINT * pow2(
            1001,
        )),
{
    let gap: u32 = sh - sl;
    if gap <= 58 {
        let p: u128 = wide_power_of_two(gap);
        proof {
            lemma2_to64();
            lemma2_to64_rest();
            if gap < 58 {
                lemma_pow2_strictly_increases(gap as nat, 58);
            }
            assert(mh * p < 0x8000_0000_0000_0000_0000_0000_0000) by (nonlinear_arith)
                requires
                    0 <= mh < 0x20_0000_0000_0000,
                    0 < p <= 0x400_0000_0000_0000,
            ;
        }
        let h: u128 = (mh as u128) * p;
        let l: u128 = ml as u128;
        let d: u128 = if opposite {
            h + l
        } else if h >= l {
            h - l
        } else {
            l - h
        };
        proof {
            let base = pow2(sl as nat) as int;
            lemma_pow2_adds(gap as nat, sl as nat);
            lemma_pow2_pos(sl as nat);
            let high = mh * pow2(sh as nat);
            let low = ml * pow2(sl as nat);
            assert(high == h * base) by (nonlinear_arith)
                requires
                    high == mh * pow2(sh as nat),
                    pow2(sh as nat) == p * base,
                    h == mh * p,
            ;
            assert(distance(high, low, opposite) == d * base) by (nonlinear_arith)
                requires
                    high == h * base,
                    low == l * base,
                    base > 0,
                    h >= 0,
                    l >= 0,
                    d == distance(h as int, l as int, opposite),
                    distance(high, low, opposite) == (if opposite {
                        high + low
                    } else if high >= low {
                        high - low
                    } else {
                        low - high
                    }),
                    distance(h as int, l as int, opposite) == (if opposite {
                        h + l
                    } else if h >= l {
                        h - l
                    } else {
                        l - h
                    }),
            ;
        }
        at_most(d, sl, MIDPOINT as u128, 1001)
    } else {
        proof {
            lemma_far_apart(mh as int, sh as nat, ml as int, sl as nat);
        }
        at_most(mh as u128, sh, MIDPOINT as u128, 1001)
    }
}

/// Whether two finite numbers are a millionth apart at most.
pub fn is_near(a: u64, b: u64) -> (r: bool)
    requires
        finite(a),
        finite(b),
    ensures
        r == near(a, b),
{
    let ea: u64 = (a / FRACTION_SPAN) % 2048;
    let fa: u64 = a % FRACTION_SPAN;
    let ma: u64 = if ea == 0 {
        fa
    } else {
        FRACTION_SPAN + fa
    };
    let sa: u32 = if ea == 0 {
        0
    } else {
        (ea - 1) as u32
    };
    let eb: u64 = (b / FRACTION_SPAN) % 2048;
    let fb: u64 = b % FRACTION_SPAN;
    let mb: u64 = if eb == 0 {
        fb
    } else {
        FRACTION_SPAN + fb
    };
    let sb: u32 = if eb == 0 {
        0
    } else {
        (eb - 1) as u32
    };
    let opposite: bool = (a >= SIGN_BIT) != (b >= SIGN_BIT) && ma != 0 && mb != 0;
    proof {
        assert(ma == significand(a) && sa == scale(a) + 1074);
        assert(mb == significand(b) && sb == scale(b) + 1074);
        let x = scaled_magnitude(a);
        let y = scaled_magnitude(b);
        assert(x == ma * pow2(sa as nat));
        assert(y == mb * pow2(sb as nat));
        lemma_pow2_pos(sa as nat);
        lemma_pow2_pos(sb as nat);
        assert(x >= 0 && (ma == 0 ==> x == 0)) by (nonlinear_arith)
            requires
                x == ma * pow2(sa as nat),
                ma >= 0,
                pow2(sa as nat) > 0,
        ;
        assert(y >= 0 && (mb == 0 ==> y == 0)) by (nonlinear_arith)
            requires
                y == mb * pow2(sb as nat),
                mb >= 0,
                pow2(sb as nat) > 0,
        ;
        let d = scaled(a) - scaled(b);
        let limit = MIDPOINT * pow2(1001);
        assert((-limit <= d <= limit) == (distance(x, y, opposite) <= limit));
        assert(distance(x, y, opposite) == distance(y, x, opposite));
    }
    if sa >= sb {
        close(ma, sa, mb, sb, opposite)
    } else {
        close(mb, sb, ma, sa, opposite)
    }
}

/// Being near does not depend on the order of the two numbers, and every
/// number is near itself.
pub proof fn law_near_is_symmetric(a: u64, b: u64)
    ensures
        near(a, b) == near(b, a),
        near(a, a),
{
    lemma_pow2_pos(1001);
    assert(MIDPOINT * pow2(1001) >= 0) by (nonlinear_arith)
        requires
            pow2(1001) > 0,
    ;
}

} // verus!
