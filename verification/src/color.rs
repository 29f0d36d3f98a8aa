//! Colors packed into numbers.
//!
//! A packed color is the number whose bit pattern is `0xRRGGBBAA`, the
//! upper 32 bits being zero.

use crate::measure::{law_encoding_is_by_value, law_halved_is_nearest, rounded_to_double};
use crate::number::{
    self, bit_length, exponent, finite, fraction, lemma_bit_length_bounds, scale, significand,
    FRACTION_SPAN, SIGN_BIT,
};
use crate::ratio::{
    doublings, law_doublings_reach_the_floor, law_quotient_is_nearest, quotient, ratio,
};
use vstd::arithmetic::div_mod::{lemma_basic_div, lemma_div_by_multiple};
use vstd::arithmetic::power2::*;
use vstd::prelude::*;

verus! {

/// The pattern of the color with the given channels.
pub open spec fn packing(r: u8, g: u8, b: u8, a: u8) -> u64 {
    (((r as int * 256 + g as int) * 256 + b as int) * 256 + a as int) as u64
}

/// The four channels in the low 32 bits of a pattern: red, green, blue, alpha.
pub open spec fn channels(bits: u64) -> (u8, u8, u8, u8) {
    (
        ((bits as int / 0x100_0000) % 256) as u8,
        ((bits as int / 0x1_0000) % 256) as u8,
        ((bits as int / 0x100) % 256) as u8,
        (bits as int % 256) as u8,
    )
}

/// The channel that a number which is not negative names: the whole part
/// of the double nearest to 255 times the number, held to `0..=255`.
///
/// The number is its significand at its scale, and the double nearest to
/// 255 times the significand, taken at that scale, is the double nearest
/// to 255 times the number.
pub open spec fn byte_of(x: u64) -> u8 {
    let product = number::encoding((number::significand(x) * 255) as nat) as u64;
    let up = number::scale(product) + number::scale(x);
    let w = if up >= 0 {
        number::significand(product) * pow2(up as nat)
    } else {
        number::significand(product) / (pow2((-up) as nat) as int)
    };
    if w > 255 {
        255u8
    } else {
        w as u8
    }
}

/// A channel as a number: the double nearest to the channel divided by 255.
pub open spec fn share(channel: u8) -> u64 {
    quotient(channel as nat, 255) as u64
}

/// A number held to the range from 0 to 1.
pub open spec fn unit_range(bits: u64) -> u64 {
    if number::below(bits, 0) {
        0
    } else if number::below(number::ONE, bits) {
        number::ONE
    } else {
        bits
    }
}

/// Packs four channels into a pattern.
pub fn pack(r: u8, g: u8, b: u8, a: u8) -> (bits: u64)
    ensures
        bits == packing(r, g, b, a),
        bits < 0x1_0000_0000,
        number::finite(bits),
{
    ((r as u64 * 256 + g as u64) * 256 + b as u64) * 256 + a as u64
}

/// The four channels in the low 32 bits of a pattern.
pub fn unpack(bits: u64) -> (c: (u8, u8, u8, u8))
    ensures
        c == channels(bits),
{
    (
        ((bits / 0x100_0000) % 256) as u8,
        ((bits / 0x1_0000) % 256) as u8,
        ((bits / 0x100) % 256) as u8,
        (bits % 256) as u8,
    )
}

/// The channel that a number which is not negative names.
pub fn to_byte(x: u64) -> (c: u8)
    ensures
        c == byte_of(x),
{
    let e: u64 = (x / FRACTION_SPAN) % 2048;
    let f: u64 = x % FRACTION_SPAN;
    let sig: u64 = if e == 0 {
        f
    } else {
        FRACTION_SPAN + f
    };
    let scale: i64 = if e == 0 {
        -1074
    } else {
        e as i64 - 1075
    };
    let product: u64 = number::from_magnitude(sig * 255);
    let pe: u64 = (product / FRACTION_SPAN) % 2048;
    let pf: u64 = product % FRACTION_SPAN;
    let psig: u64 = if pe == 0 {
        pf
    } else {
        FRACTION_SPAN + pf
    };
    let pscale: i64 = if pe == 0 {
        -1074
    } else {
        pe as i64 - 1075
    };
    let up: i64 = pscale + scale;
    proof {
        lemma2_to64();
        assert(psig == number::significand(product));
        assert(up == number::scale(product) + number::scale(x));
    }
    if up >= 0 {
        let ghost p = pow2(up as nat) as int;
        proof {
            lemma_pow2_pos(up as nat);
            if up > 8 {
                lemma_pow2_strictly_increases(8, up as nat);
            }
            assert(psig * p >= psig && (p >= 256 && psig >= 1 ==> psig * p >= 256) && (psig == 0
                ==> psig * p == 0)) by (nonlinear_arith)
                requires
                    p >= 1,
                    psig >= 0,
            ;
        }
        if psig == 0 {
            0
        } else if psig > 255 || up >= 8 {
            255
        } else {
            let w: u64 = psig * number::power_of_two(up as u32);
            if w > 255 {
                255
            } else {
                w as u8
            }
        }
    } else {
        let down: i64 = -up;
        if down >= 64 {
            proof {
                if down > 64 {
                    lemma_pow2_strictly_increases(64, down as nat);
                }
                lemma_basic_div(psig as int, pow2(down as nat) as int);
            }
            0
        } else {
            proof {
                lemma_pow2_pos(down as nat);
            }
            let w: u64 = psig / number::power_of_two(down as u32);
            if w > 255 {
                255
            } else {
                w as u8
            }
        }
    }
}

/// A channel as a number.
pub fn to_share(channel: u8) -> (bits: u64)
    ensures
        bits == share(channel),
        number::finite(bits),
{
    ratio(channel as u128, 255)
}

/// Holds a number to the range from 0 to 1.
pub fn clamp_unit(bits: u64) -> (r: u64)
    ensures
        r == unit_range(bits),
{
    if number::less_than(bits, 0) {
        0
    } else if number::less_than(number::ONE, bits) {
        number::ONE
    } else {
        bits
    }
}


/// The fields of a channel as a number: with `s` the doublings that bring
/// the channel over 255 into `2^52..2^53`, the number has the scale `-s`,
/// and 255 times its significand is within 127 of the channel times `2^s`,
/// which is a multiple of `2^52`.
proof fn lemma_share_fields(k: u8)
    requires
        k >= 1,
    ensures
        ({
            let x = share(k);
            let s = doublings(k as nat, FRACTION_SPAN as nat * 255);
            let n = k * pow2(s);
            &&& 52 <= s <= 60
            &&& 255 * 0x10_0000_0000_0000 <= n < 255 * 0x20_0000_0000_0000
            &&& n % 0x10_0000_0000_0000 == 0
            &&& x < SIGN_BIT
            &&& finite(x)
            &&& scale(x) == -s
            &&& -127 <= 255 * significand(x) - n <= 127
        }),
{
    let floor = FRACTION_SPAN as nat * 255;
    let s = doublings(k as nat, floor);
    let p = pow2(s) as int;
    let kk = k as int;
    let n = kk * p;
    lemma2_to64();
    lemma2_to64_rest();
    law_doublings_reach_the_floor(k as nat, floor);
    lemma_pow2_pos(s);
    assert(floor == 255 * 0x10_0000_0000_0000);
    assert(floor <= n < 2 * floor);
    if s < 52 {
        lemma_pow2_strictly_increases(s, 52);
        assert(kk * p < 255 * 0x10_0000_0000_0000) by (nonlinear_arith)
            requires
                0 < kk <= 255,
                0 < p < 0x10_0000_0000_0000,
        ;
    }
    if s > 60 {
        if s > 61 {
            lemma_pow2_strictly_increases(61, s);
        }
        assert(kk * p >= p) by (nonlinear_arith)
            requires
                1 <= kk,
                0 < p,
        ;
    }
    assert(52 <= s <= 60);
    lemma_pow2_adds(52, (s - 52) as nat);
    let j = kk * pow2((s - 52) as nat);
    assert(n == j * 0x10_0000_0000_0000) by (nonlinear_arith)
        requires
            n == kk * p,
            p == 0x10_0000_0000_0000 * pow2((s - 52) as nat),
            j == kk * pow2((s - 52) as nat),
    ;
    law_quotient_is_nearest(k as nat, 255);
    let x = share(k);
    let sig = significand(x);
    let unit = pow2((scale(x) + s) as nat) as int;
    let w = sig * unit;
    if scale(x) == 1 - s {
        assert(unit == 2);
        assert(sig >= 0x10_0000_0000_0000);
        assert(w * 255 >= 255 * 0x20_0000_0000_0000) by (nonlinear_arith)
            requires
                w == sig * unit,
                unit == 2,
                sig >= 0x10_0000_0000_0000,
        ;
        assert(false);
    }
    assert(unit == 1);
    assert(w == sig) by (nonlinear_arith)
        requires
            w == sig * unit,
            unit == 1,
    ;
    assert(w * 255 == 255 * sig) by (nonlinear_arith)
        requires
            w == sig,
    ;
}

/// Rounding 255 times the significand of a channel as a number to 53
/// binary digits gives the channel times `2^s`: what the division lost is
/// less than what the rounding drops.
proof fn lemma_product_rounds_back(n: int, sig: int, g: int, h: int)
    requires
        n % 0x10_0000_0000_0000 == 0,
        255 * 0x10_0000_0000_0000 <= n < 255 * 0x20_0000_0000_0000,
        -127 <= 255 * sig - n <= 127,
        g == 128 || g == 256,
        g == 128 ==> 255 * sig < 0x1000_0000_0000_0000,
        -g <= 2 * (h * g - 255 * sig) <= g,
    ensures
        h * g == n,
{
    let j = n / 0x10_0000_0000_0000;
    assert(n == 0x10_0000_0000_0000 * j);
    let rho = 255 * sig - n;
    if g == 256 {
        assert(h * g == 256 * h);
        assert(n == 256 * (0x1000_0000_0000 * j));
    } else {
        assert(h * g == 128 * h);
        assert(n == 128 * (0x2000_0000_0000 * j));
        assert(255 <= j <= 256);
        if j == 255 {
            assert(rho == 255 * (sig - 0x10_0000_0000_0000));
            assert(rho == 0);
        } else {
            assert(n == 0x1000_0000_0000_0000);
            assert(rho + 16 == 255 * (sig - 0x10_1010_1010_1010));
            assert(rho == -16);
        }
    }
}

/// Where a significand `top` at the scale `a` is a channel `k` at the
/// scale `b`, the whole part of the significand at the scale `a - b` is
/// the channel.
proof fn lemma_whole_at_scale(top: int, a: nat, k: int, b: nat)
    requires
        top * pow2(a) == k * pow2(b),
        0 <= k,
    ensures
        a >= b ==> top * pow2((a - b) as nat) == k,
        a < b ==> top / (pow2((b - a) as nat) as int) == k,
{
    let pa = pow2(a) as int;
    let pb = pow2(b) as int;
    lemma_pow2_pos(a);
    lemma_pow2_pos(b);
    if a >= b {
        let pu = pow2((a - b) as nat) as int;
        lemma_pow2_adds((a - b) as nat, b);
        assert(top * pu == k) by (nonlinear_arith)
            requires
                top * (pu * pb) == k * pb,
                pb > 0,
        ;
    } else {
        let pd = pow2((b - a) as nat) as int;
        lemma_pow2_adds((b - a) as nat, a);
        lemma_pow2_pos((b - a) as nat);
        assert(top == k * pd) by (nonlinear_arith)
            requires
                top * pa == k * (pd * pa),
                pa > 0,
        ;
        lemma_div_by_multiple(k, pd);
        assert(top / pd == k) by (nonlinear_arith)
            requires
                top == k * pd,
                (k * pd) / pd == k,
        ;
    }
}

/// 255 times the significand of a channel as a number, as a double, is
/// the channel times `2^s`.
proof fn lemma_product_of_share(k: u8)
    requires
        k >= 1,
    ensures
        ({
            let s = doublings(k as nat, FRACTION_SPAN as nat * 255);
            let product = (significand(share(k)) * 255) as nat;
            &&& significand(share(k)) * 255 >= 0
            &&& product < 0x1_0000_0000_0000_0000
            &&& rounded_to_double(product) == k * pow2(s)
        }),
{
    lemma2_to64();
    lemma2_to64_rest();
    lemma_share_fields(k);
    let s = doublings(k as nat, FRACTION_SPAN as nat * 255);
    let n = k * pow2(s);
    let sig = significand(share(k));
    let product = (sig * 255) as nat;
    lemma_bit_length_bounds(product);
    let len = bit_length(product);
    if len < 59 {
        lemma_pow2_strictly_increases(len, 59);
    }
    if len > 62 {
        lemma_pow2_strictly_increases(61, (len - 1) as nat);
    }
    assert(60 <= len <= 61);
    let g = pow2((len - 53) as nat) as int;
    let h = number::halved(product, (len - 53) as nat) as int;
    law_halved_is_nearest(product, (len - 53) as nat);
    assert(g == 128 || g == 256);
    lemma_product_rounds_back(n as int, sig, g, h);
}

/// A channel as a number lies between 0 and 1.
proof fn lemma_share_in_range(k: u8)
    ensures
        unit_range(share(k)) == share(k),
{
    lemma2_to64();
    lemma2_to64_rest();
    if k == 0 {
        assert(share(0) == 0);
    } else {
        lemma_share_fields(k);
        let x = share(k);
        let s = doublings(k as nat, FRACTION_SPAN as nat * 255);
        let n = k * pow2(s);
        assert(exponent(x) == 1075 - s);
        assert(x == exponent(x) * 0x10_0000_0000_0000 + fraction(x));
        if s == 52 {
            assert(n <= 255 * 0x10_0000_0000_0000) by (nonlinear_arith)
                requires
                    n == k * pow2(s),
                    pow2(s) == 0x10_0000_0000_0000,
                    k <= 255,
            ;
        }
        assert(x <= number::ONE);
    }
}

/// A channel as a number names the channel: packing what unpacking gave
/// gives the color back.
pub proof fn law_share_names_its_channel(k: u8)
    ensures
        unit_range(share(k)) == share(k),
        byte_of(share(k)) == k,
{
    lemma_share_in_range(k);
    if k == 0 {
        assert(share(0) == 0);
        assert(significand(0) == 0);
        assert(number::encoding(0) == 0);
        lemma_pow2_pos(2148);
        lemma_basic_div(0, pow2(2148) as int);
    } else {
        lemma_share_fields(k);
        lemma_product_of_share(k);
        let x = share(k);
        let s = doublings(k as nat, FRACTION_SPAN as nat * 255);
        let product = (significand(x) * 255) as nat;
        law_encoding_is_by_value(product);
        let e = number::encoding(product) as u64;
        let top = significand(e);
        let a = (scale(e) + 1074) as nat;
        let b = (s + 1074) as nat;
        lemma_pow2_adds(s, 1074);
        assert(top * pow2(a) == k * pow2(b)) by (nonlinear_arith)
            requires
                top * pow2(a) == (k * pow2(s)) * pow2(1074),
                pow2(b) == pow2(s) * pow2(1074),
        ;
        lemma_whole_at_scale(top, a, k as int, b);
        assert(scale(e) + scale(x) == a - b);
    }
}

} // verus!
