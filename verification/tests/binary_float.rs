//! Checks the bit-pattern arithmetic against the machine's own.

use background_blur::binary_float::{Binary32, Binary64, Rounding, Unpacked};
use background_blur::rounding::round_significand;

/// A spread of double-precision numbers: small integers, fractions, powers of two,
/// neighbours of both, the ends of the range and the special values.
fn doubles() -> Vec<f64> {
    let mut all: Vec<f64> = vec![
        0.0,
        1.0,
        1.25,
        1.5,
        1.75,
        2.0,
        3.0,
        0.1,
        0.3,
        1.0 / 3.0,
        2.0 / 3.0,
        1e-300,
        5e-324,
        1e-310,
        1e-45,
        7e-46,
        7.1e-46,
        1.4e-45,
        1e-40,
        1.1754943508222875e-38,
        3.4028234663852886e38,
        3.4028235677973366e38,
        3.4028235e38,
        1e39,
        1e300,
        1.7976931348623157e308,
        2147483647.0,
        2147483648.0,
        2147483649.5,
        4294967296.0,
        16777216.0,
        16777217.0,
        16777219.0,
        0.5,
        0.49999999999999994,
        0.9999999999999999,
        1.0000000000000002,
        f64::INFINITY,
        f64::NAN,
    ];
    let mut seed: u64 = 0x9e37_79b9_7f4a_7c15;
    for i in 0..400u64 {
        seed = seed.wrapping_mul(6364136223846793005).wrapping_add(1442695040888963407);
        all.push(f64::from_bits(seed));
        let near = (1000 + i % 50) << 52;
        all.push(f64::from_bits(near | (seed >> 12)));
        all.push((seed >> 40) as f64 / 256.0);
    }
    let negated: Vec<f64> = all.iter().map(|x| -x).collect();
    all.extend(negated);
    all
}

fn coordinates() -> Vec<i32> {
    let mut all = vec![0, 1, 2, 3, 7, 100, 1079, 1080, 1919, 1920, 3840, i32::MAX, i32::MAX - 1, i32::MIN, i32::MIN + 1];
    let mut seed: u32 = 12345;
    for _ in 0..40 {
        seed = seed.wrapping_mul(1664525).wrapping_add(1013904223);
        all.push(seed as i32);
        all.push((seed >> 16) as i32);
        all.push(-((seed >> 20) as i32));
    }
    all
}

fn b64(x: f64) -> Binary64 {
    Binary64 { bits: x.to_bits() }
}

fn b32(x: f32) -> Binary32 {
    Binary32 { bits: x.to_bits() }
}

#[test]
fn narrowing_matches_the_machine() {
    for x in doubles() {
        let machine = x as f32;
        let ours = f32::from_bits(b64(x).narrow().bits);
        if machine.is_nan() {
            assert!(ours.is_nan());
        } else {
            assert_eq!(ours.to_bits(), machine.to_bits(), "{}", x);
        }
    }
    assert_eq!(b64(16777217.0).narrow().bits, 16777216.0f32.to_bits());
    assert_eq!(b64(1e39).narrow().bits, 0x7f80_0000);
}

#[test]
fn integers_convert_like_the_machine() {
    for w in coordinates() {
        assert_eq!(Binary32::from_i32(w).bits, (w as f32).to_bits(), "{}", w);
    }
    assert_eq!(Binary32::from_i32(16777219).bits, 16777220.0f32.to_bits());
}

#[test]
fn truncation_matches_the_machine() {
    for x in doubles() {
        assert_eq!(b64(x).as_i32(), x as i32, "{}", x);
    }
    assert_eq!(b64(-2.75).as_i32(), -2);
    assert_eq!(b64(3e9).as_i32(), i32::MAX);
}

#[test]
fn products_match_the_machine() {
    for x in doubles() {
        for w in coordinates() {
            let p = w as f64 * x;
            assert_eq!(b64(x).scale_i32(w, Rounding::Nearest), p.round() as i32, "{} {}", w, x);
            assert_eq!(b64(x).scale_i32(w, Rounding::Ceil), p.ceil() as i32, "{} {}", w, x);
            assert_eq!(b64(x).scale_i32(w, Rounding::Truncate), p as i32, "{} {}", w, x);
        }
    }
    assert_eq!(b64(1.5).scale_i32(3, Rounding::Nearest), 5);
    assert_eq!(b64(1.5).scale_i32(-3, Rounding::Nearest), -5);
    assert_eq!(b64(1.5).scale_i32(-3, Rounding::Ceil), -4);
}

#[test]
fn quotients_match_the_machine() {
    for x in doubles() {
        for w in coordinates() {
            assert_eq!(b64(x).divide_i32(w), (w as f64 / x) as i32, "{} {}", w, x);
        }
    }
    assert_eq!(b64(1.5).divide_i32(1920), 1280);
    assert_eq!(b64(0.0).divide_i32(5), i32::MAX);
    assert_eq!(b64(-0.0).divide_i32(5), i32::MIN);
    assert_eq!(b64(0.0).divide_i32(0), 0);
}

/// A quotient just below a whole number that double precision rounds up to it.
#[test]
fn quotients_round_before_they_are_truncated() {
    let x = f64::from_bits(1.0f64.to_bits() + 1) * 0.1;
    for w in [i32::MAX, i32::MAX - 6, 2_000_000_000, 1_999_999_999] {
        assert_eq!(b64(x).divide_i32(w), (w as f64 / x) as i32);
        let y = 3.0000000000000004f64;
        assert_eq!(b64(y).divide_i32(w), (w as f64 / y) as i32);
    }
}

#[test]
fn extents_match_the_machine() {
    for x in doubles() {
        let r = x as f32;
        let powers = [
            1, 2, 3, 4, 5, 8, 31, 64, 126, 127, 128, 200, 1000, i32::MAX, 0, -1, -2, -5, -31, -100, -126, -127, -128,
            -129, -149, -150, -1000, i32::MIN + 1,
        ];
        for n in powers {
            let machine = (2f32.powi(std::hint::black_box(n)) * r).ceil() as i32;
            assert_eq!(b32(r).ceil_times_power(n), machine, "{} {}", n, r);
        }
    }
    assert_eq!(b32(2.5).ceil_times_power(2), 10);
    assert_eq!(b32(2.3).ceil_times_power(2), 10);
}

#[test]
fn zero_and_one_are_told_apart() {
    for x in doubles() {
        assert_eq!(b64(x).equals_zero(), x == 0.0);
        assert_eq!(b64(x).equals_one(), x == 1.0);
        let r = x as f32;
        assert_eq!(b32(r).equals_zero(), r == 0.0);
        assert_eq!(b32(r).equals_one(), r == 1.0);
    }
    assert!(b32(-0.0).equals_zero());
    assert_eq!(Binary32::one(), b32(1.0));
}

#[test]
fn numbers_unpack_to_significand_and_exponent() {
    assert_eq!(b64(1.0).unpack(), Unpacked::Finite { negative: false, mant: 1 << 52, exp: -52 });
    assert_eq!(b64(-5e-324).unpack(), Unpacked::Finite { negative: true, mant: 1, exp: -1074 });
    assert_eq!(b64(f64::NEG_INFINITY).unpack(), Unpacked::Infinite { negative: true });
    assert_eq!(b64(f64::NAN).unpack(), Unpacked::Nan);
    assert_eq!(b32(-0.5).unpack(), Unpacked::Finite { negative: true, mant: 1 << 23, exp: -24 });
    assert_eq!(b32(1e-45).unpack(), Unpacked::Finite { negative: false, mant: 1, exp: -149 });
    assert_eq!(b32(f32::INFINITY).unpack(), Unpacked::Infinite { negative: false });
    assert_eq!(b32(f32::NAN).unpack(), Unpacked::Nan);
}

#[test]
fn significands_round_to_even() {
    assert_eq!(round_significand(1, 1, 24), (1 << 23, -23));
    assert_eq!(round_significand(1, 3, 24), (0xaa_aaab, -25));
    // Halfway between two significands: the even one, up or down.
    assert_eq!(round_significand((1 << 24) + 1, 1, 24), (1 << 23, 1));
    assert_eq!(round_significand((1 << 24) + 3, 1, 24), ((1 << 23) + 2, 1));
    // Rounds up to the next power of two.
    assert_eq!(round_significand((1 << 25) - 1, 1, 24), (1 << 24, 1));
    assert_eq!(round_significand((1 << 54) - 1, 1, 53), (1 << 53, 1));
}

#[test]
fn narrowing_keeps_zero_and_one() {
    assert!(b64(0.0).narrow().equals_zero());
    assert!(b64(-0.0).narrow().equals_zero());
    assert!(b64(1.0).narrow().equals_one());
    assert_eq!(Binary32::zero(), b32(0.0));
}

#[test]
fn narrowing_keeps_the_order() {
    let mut x: f64 = 1e-320;
    let mut last: f32 = 0.0;
    while x < 1e300 {
        let narrowed = f32::from_bits(Binary64 { bits: x.to_bits() }.narrow().bits);
        assert!(narrowed >= last);
        assert_eq!(narrowed, x as f32);
        last = narrowed;
        x *= 1.37;
    }
}

#[test]
fn narrowing_keeps_single_precision_numbers() {
    for bits in [0u32, 1, 0x7f_ffff, 0x80_0000, 0x3f7f_ffff, 0x3f80_0000, 0x7f7f_ffff, 0x7f80_0000, 0x8000_0001, 0xff80_0000] {
        let wide = f32::from_bits(bits) as f64;
        assert_eq!(Binary64 { bits: wide.to_bits() }.narrow().bits, bits);
    }
}
