use logic_vm::near::{is_near, EPSILON, MIDPOINT};
use logic_vm::number;
use logic_vm::ratio::ratio;
use logic_vm::value::LValue;
use logic_vm::world::Clock;

fn samples() -> Vec<f64> {
    let mut v = vec![
        0.0,
        -0.0,
        1.0,
        -1.0,
        0.5,
        -0.5,
        0.49999999999999994,
        0.5000000000000001,
        1.5,
        -1.5,
        1.49,
        -1.51,
        2.5,
        -2.5,
        1e-300,
        -1e-300,
        5e-324,
        1e15,
        4503599627370495.5,
        4503599627370496.0,
        9007199254740991.0,
        9007199254740992.0,
        9007199254740993.0,
        9.223372036854775e18,
        9223372036854775807.0,
        -9223372036854775808.0,
        1e19,
        -1e19,
        1e308,
        -1e308,
        f64::INFINITY,
        f64::NEG_INFINITY,
        f64::NAN,
        f64::MAX,
        f64::MIN_POSITIVE,
        255.0,
        65536.0,
        123456.789,
        -123456.789,
        0.1,
        0.999999999999,
    ];
    let mut x: u64 = 0x9e3779b97f4a7c15;
    for _ in 0..2000 {
        x ^= x << 13;
        x ^= x >> 7;
        x ^= x << 17;
        v.push(f64::from_bits(x));
        v.push(((x >> 11) as f64) / 1024.0 - 1e9);
        v.push((x as i64 >> 20) as f64 / 8.0);
    }
    v
}

fn integers() -> Vec<i64> {
    let mut v = vec![
        0,
        1,
        -1,
        2,
        255,
        1 << 52,
        (1 << 53) - 1,
        1 << 53,
        (1 << 53) + 1,
        (1 << 53) + 2,
        (1 << 53) + 3,
        (1 << 54) + 2,
        (1 << 54) + 6,
        i64::MAX,
        i64::MAX - 1,
        i64::MIN,
        i64::MIN + 1,
        -(1 << 53) - 1,
        0x7fff_ffff_ffff_fc00,
        0x7fff_ffff_ffff_fdff,
        0x7fff_ffff_ffff_fe00,
    ];
    let mut x: u64 = 0x2545f4914f6cdd1d;
    for i in 0..4000 {
        x ^= x << 13;
        x ^= x >> 7;
        x ^= x << 17;
        v.push((x as i64) >> (i % 64));
    }
    v
}

#[test]
fn truncation_matches_the_cast() {
    for x in samples() {
        assert_eq!(number::to_int(x.to_bits()), x as i64, "{x:?}");
    }
}

#[test]
fn encoding_matches_the_cast() {
    for n in integers() {
        assert_eq!(number::from_int(n), (n as f64).to_bits(), "{n}");
        assert_eq!(number::from_magnitude(n as u64), ((n as u64) as f64).to_bits(), "{n}");
    }
}

#[test]
fn small_integers_round_trip() {
    for n in integers() {
        if n.unsigned_abs() < (1 << 53) {
            assert_eq!(number::to_int(number::from_int(n)), n);
        }
    }
}

#[test]
fn order_matches_the_doubles() {
    let s = samples();
    for (i, &a) in s.iter().enumerate().take(300) {
        for &b in s.iter().skip(i % 7).step_by(13) {
            assert_eq!(number::less_than(a.to_bits(), b.to_bits()), a < b, "{a:?} < {b:?}");
            assert_eq!(number::equals(a.to_bits(), b.to_bits()), a == b, "{a:?} == {b:?}");
        }
    }
}

#[test]
fn rounding_matches_the_doubles() {
    for x in samples() {
        let b = x.to_bits();
        let same = |got: u64, want: f64| {
            (want.is_nan() && number::is_nan(got)) || f64::from_bits(got) == want
        };
        assert!(same(number::floor(b), x.floor()), "floor {x:?}");
        assert!(same(number::ceil(b), x.ceil()), "ceil {x:?}");
        let want = if x.fract() == 0.0 || !x.is_finite() {
            x
        } else if x.abs() < 4503599627370496.0 {
            let lower = x.floor();
            if x - lower >= 0.5 {
                lower + 1.0
            } else {
                lower
            }
        } else {
            x
        };
        assert!(same(number::round(b), want), "round {x:?}");
    }
}

#[test]
fn round_goes_half_up() {
    let round = |x: f64| f64::from_bits(number::round(x.to_bits()));
    assert_eq!(round(1.5), 2.0);
    assert_eq!(round(-1.5), -1.0);
    assert_eq!(round(-1.51), -2.0);
    assert_eq!(round(1.49), 1.0);
    assert_eq!(round(-1.49), -1.0);
    assert_eq!(round(0.49999999999999994), 0.0);
    assert_eq!(round(2.5), 3.0);
    assert_eq!(round(-2.5), -2.0);
}

#[test]
fn signs_and_magnitudes() {
    for x in samples() {
        let b = x.to_bits();
        assert_eq!(number::absolute(b), x.abs().to_bits());
        assert_eq!(number::is_finite(b), x.is_finite());
        assert_eq!(number::is_nan(b), x.is_nan());
        assert_eq!(number::is_zero(b), x == 0.0);
        if !x.is_nan() {
            let want = if x == 0.0 { 0.0 } else { x.signum() };
            assert_eq!(f64::from_bits(number::sign_of(b)), want);
        }
        assert_eq!(
            number::is_whole_number(b),
            x.is_finite() && x.fract() == 0.0 && x.abs() < 9223372036854775808.0,
            "{x:?}",
        );
    }
}

#[test]
fn seconds_become_nanoseconds() {
    assert_eq!(number::to_nanoseconds(1.0f64.to_bits()), 1_000_000_000);
    assert_eq!(number::to_nanoseconds(0.5f64.to_bits()), 500_000_000);
    assert_eq!(number::to_nanoseconds(1e-5f64.to_bits()), 10_000);
    assert_eq!(number::to_nanoseconds(0.0f64.to_bits()), 0);
    assert_eq!(number::to_nanoseconds((-1.0f64).to_bits()), 0);
    assert_eq!(number::to_nanoseconds(f64::NAN.to_bits()), 0);
    assert_eq!(number::to_nanoseconds(f64::INFINITY.to_bits()), u64::MAX);
    assert_eq!(number::to_nanoseconds(1e300f64.to_bits()), u64::MAX);
    assert_eq!(number::to_nanoseconds(1e-300f64.to_bits()), 0);
    assert_eq!(number::to_nanoseconds(2.5f64.to_bits()), 2_500_000_000);
    assert_eq!(number::to_nanoseconds(18446744073.0f64.to_bits()), 18_446_744_073_000_000_000);
    assert_eq!(number::to_nanoseconds(18446744074.0f64.to_bits()), u64::MAX);
}

#[test]
fn constants_are_the_patterns_they_name() {
    assert_eq!(number::ONE, 1.0f64.to_bits());
    assert_eq!(number::MINUS_ONE, (-1.0f64).to_bits());
    assert_eq!(number::SIGN_BIT, (-0.0f64).to_bits());
    assert_eq!(EPSILON, 0.000001f64.to_bits());
    assert_eq!(logic_vm::variables::PI, (std::f32::consts::PI as f64).to_bits());
    assert_eq!(logic_vm::variables::E, (std::f32::consts::E as f64).to_bits());
}

#[test]
fn single_precision_matches_the_cast() {
    let mut all = samples();
    for x in [
        f32::MAX as f64,
        f32::MIN_POSITIVE as f64,
        f32::from_bits(1) as f64,
        f32::from_bits(1) as f64 / 2.0,
        f32::from_bits(1) as f64 / 2.0 * 1.0000000000000002,
        f32::from_bits(1) as f64 * 1.5,
        f32::from_bits(3) as f64 * 0.5,
        f32::from_bits(0x007f_ffff) as f64,
        f32::from_bits(0x007f_ffff) as f64 * 1.00000001,
        340282346638528859811704183484516925440.0,
        340282356779733661637539395458142568447.0,
        340282356779733661637539395458142568448.0,
        340282356779733661637539395458142568449.0,
        3.5e38,
        1e39,
        1.0000000596046448,
        1.0000000596046447,
        1.0000000596046449,
        1.0000001788139343,
        16777217.0,
        16777219.0,
        0.1,
        1.0 / 3.0,
        std::f64::consts::PI,
        1e-45,
        7e-46,
        7.006492321624085e-46,
        7.006492321624086e-46,
        1e-40,
        2.5e-324,
    ] {
        all.push(x);
        all.push(-x);
    }
    let mut x: u64 = 0x1234_5678_9abc_def1;
    for _ in 0..20000 {
        x ^= x << 13;
        x ^= x >> 7;
        x ^= x << 17;
        let single = f32::from_bits(x as u32) as f64;
        all.push(single);
        all.push(f64::from_bits(single.to_bits().wrapping_add(x >> 40)));
        all.push(f64::from_bits(single.to_bits().wrapping_add(1 << 28)));
        all.push(f64::from_bits(single.to_bits().wrapping_sub(1 << 28)));
        all.push(f64::from_bits(single.to_bits().wrapping_add((1 << 28) + 1)));
        all.push(f64::from_bits(x));
    }
    for x in all {
        let got = number::single(x.to_bits());
        let want = x as f32 as f64;
        if want.is_nan() {
            assert!(number::is_nan(got), "{x:?}");
        } else {
            assert_eq!(got, want.to_bits(), "{x:?}");
        }
    }
    assert_eq!(number::INFINITY, f64::INFINITY.to_bits());
}

#[test]
fn ratio_is_the_quotient_as_a_double() {
    assert_eq!(ratio(0, 7), 0);
    assert_eq!(ratio(750_000_000, 1_000_000), 750f64.to_bits());
    assert_eq!(ratio(750_000_000, 1_000_000_000), 0.75f64.to_bits());
    assert_eq!(ratio(1, 3), (1f64 / 3f64).to_bits());
    assert_eq!(ratio(2, 3), (2f64 / 3f64).to_bits());
    assert_eq!(ratio(1, 0xffff_ffff), (1f64 / 4294967295f64).to_bits());
    assert_eq!(ratio(1, 1), 1f64.to_bits());
    assert_eq!(ratio((1 << 53) - 1, 1), 9007199254740991f64.to_bits());
    let mut seed: u64 = 0x2545_f491_4f6c_dd1d;
    for _ in 0..20_000 {
        seed ^= seed << 13;
        seed ^= seed >> 7;
        seed ^= seed << 17;
        let n = seed >> 11;
        for d in [1u64, 2, 3, 7, 60, 1_000, 1_000_000, 1_000_000_000, 0xffff_ffff] {
            assert_eq!(ratio(n as u128, d), (n as f64 / d as f64).to_bits(), "{n} / {d}");
            let small = n >> 40;
            assert_eq!(ratio(small as u128, d), (small as f64 / d as f64).to_bits());
        }
    }
}

#[test]
fn ratio_breaks_ties_to_the_even_significand() {
    let base: u128 = 1 << 52;
    assert_eq!(ratio(2 * (base + 1) + 1, 2), ((base + 2) as f64).to_bits());
    assert_eq!(ratio(2 * (base + 2) + 1, 2), ((base + 2) as f64).to_bits());
    assert_eq!(ratio(6 * (base + 1) + 3, 6), ((base + 2) as f64).to_bits());
    assert_eq!(ratio(6 * (base + 1) + 2, 6), ((base + 1) as f64).to_bits());
    assert_eq!(ratio(6 * (base + 2) + 4, 6), ((base + 3) as f64).to_bits());
    let top: u128 = (1 << 53) - 1;
    assert_eq!(ratio(2 * top + 1, 2), 9007199254740992f64.to_bits());
    assert_eq!(ratio(4 * top + 2, 8), 4503599627370496f64.to_bits());
}

#[test]
fn the_clock_shows_the_time() {
    let c = Clock::read(0);
    assert_eq!(c.time, LValue::Number(0));
    assert_eq!(c.tick, LValue::Number(0));
    assert_eq!(c.second, LValue::Number(0));
    let c = Clock::read(16_666_667);
    assert_eq!(c.time, LValue::Number(16.666667f64.to_bits()));
    assert_eq!(c.second, LValue::Number(0.016666667f64.to_bits()));
    assert_eq!(c.tick, LValue::Number(1.00000002f64.to_bits()));
    assert!(c.shows(16_666_667));
    assert!(!c.shows(16_666_668));
    let c = Clock::read(1 << 60);
    assert_eq!(c.time, LValue::Number(((1u64 << 60) as f64 / 1e6).to_bits()));
    assert_eq!(c.second, LValue::Number(((1u64 << 60) as f64 / 1e9).to_bits()));
    assert_eq!(c.tick, LValue::Number(((1u64 << 60) as f64 * 60.0 / 1e9).to_bits()));
    let c = Clock::read(u64::MAX);
    assert!(c.check());
    assert_eq!(c.time, LValue::Number(18446744073709.551615f64.to_bits()));
    assert_eq!(c.second, LValue::Number(18446744073.709551615f64.to_bits()));
    assert_eq!(c.tick, LValue::Number(1106804644422.5730969f64.to_bits()));
}

fn near_as_doubles(x: f64, y: f64) -> bool {
    (x - y).abs() < 0.000001
}

fn check_near(x: f64, y: f64) {
    assert_eq!(is_near(x.to_bits(), y.to_bits()), near_as_doubles(x, y), "{x:e} {y:e}");
    assert_eq!(is_near(y.to_bits(), x.to_bits()), near_as_doubles(y, x), "{y:e} {x:e}");
    assert_eq!(is_near((-x).to_bits(), (-y).to_bits()), near_as_doubles(-x, -y), "-{x:e} -{y:e}");
    assert_eq!(is_near(x.to_bits(), (-y).to_bits()), near_as_doubles(x, -y), "{x:e} -{y:e}");
}

#[test]
fn near_is_the_difference_as_a_double_below_a_millionth() {
    let eps = f64::from_bits(EPSILON);
    assert_eq!(eps, 0.000001);
    let before = f64::from_bits(EPSILON - 1);
    let after = f64::from_bits(EPSILON + 1);
    for x in [0.0, -0.0, 5e-324, 1e-300, 1e-7, before, eps, after, 1.0, 1e10, 1e300, f64::MAX] {
        for y in [0.0, -0.0, 5e-324, 1e-300, 1e-7, before, eps, after, 1.0, 1e10, 1e300, f64::MAX] {
            check_near(x, y);
            check_near(x + y, x);
            check_near(x + y, y);
            check_near(x, y / 2.0);
        }
    }
    assert!(is_near(1f64.to_bits(), 1.0000009f64.to_bits()));
    check_near(1.0, 1.000001);
    assert!(!is_near(1f64.to_bits(), 1.0000011f64.to_bits()));
    assert!(is_near(0, before.to_bits()));
    assert!(!is_near(0, eps.to_bits()));
    assert!(!is_near(f64::MAX.to_bits(), (-f64::MAX).to_bits()));
    assert!(is_near(f64::MAX.to_bits(), f64::MAX.to_bits()));
}

#[test]
fn near_breaks_the_tie_at_the_midpoint() {
    let unit = 2f64.powi(-73);
    let u: u64 = (1 << 53) - 1;
    for d in [-3i64, -2, -1, 0, 1, 2, 3] {
        let v = (MIDPOINT - u).wrapping_add_signed(d);
        let x = u as f64 * unit;
        let y = -(v as f64 * unit);
        assert_eq!(is_near(x.to_bits(), y.to_bits()), d <= 0, "{d}");
        check_near(x, y);
    }
    for shift in [1, 5, 20, 52, 53, 54, 58, 59, 60, 61, 70, 200, 900, 1000] {
        let tiny = 2f64.powi(-73 - shift);
        for x in [f64::from_bits(EPSILON - 1), f64::from_bits(EPSILON), 2f64.powi(-20)] {
            check_near(x, tiny);
            check_near(x + tiny, tiny);
            check_near(x, 3.0 * tiny);
        }
    }
}

#[test]
fn near_agrees_with_doubles_on_many_pairs() {
    let mut seed: u64 = 0xd1b5_4a32_d192_ed03;
    let mut next = move || {
        seed ^= seed << 13;
        seed ^= seed >> 7;
        seed ^= seed << 17;
        seed
    };
    for _ in 0..200_000 {
        let bits = next() & 0x7fef_ffff_ffff_ffff;
        let x = f64::from_bits(bits);
        let y = f64::from_bits(next() & 0x7fef_ffff_ffff_ffff);
        check_near(x, y);
        let step = f64::from_bits(EPSILON.wrapping_add(next() % 7).wrapping_sub(3));
        check_near(x, x + step);
        check_near(x, x - step);
        let small = f64::from_bits((next() % 0x3f00_0000_0000_0000).max(1));
        check_near(small, small + step);
        check_near(small, step);
        check_near(small + step, step);
        let range = (next() % 64) as i32 - 40;
        let z = (next() >> 11) as f64 * 2f64.powi(range - 53);
        check_near(z, z + step);
        check_near(z, f64::from_bits(z.to_bits().wrapping_add(next() % 5)));
        check_near(z, z * (1.0 + 2f64.powi(-((next() % 60) as i32))));
        let w = f64::from_bits(z.to_bits().wrapping_sub((next() % 128) << 52));
        if w.is_finite() {
            check_near(z, w);
            check_near(z + step, w);
        }
    }
}
