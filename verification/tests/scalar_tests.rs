use orchestrator_rust::oscillator::{quantize, PCM_BIT_RANGE};
use orchestrator_rust::scalar::{Scalar, INFINITY_BITS, MINUS_ONE_BITS, ONE_BITS, SIGN_BIT};

fn sc(x: f64) -> Scalar {
    Scalar::from_bits(x.to_bits())
}

fn landmarks() -> Vec<f64> {
    vec![
        f64::NEG_INFINITY,
        f64::MIN,
        -1e300,
        -2.0,
        -1.0000000000000002,
        -1.0,
        -0.9999999999999999,
        -0.5,
        -0.1,
        -f64::MIN_POSITIVE,
        -5e-324,
        -0.0,
        0.0,
        5e-324,
        f64::MIN_POSITIVE / 2.0,
        f64::MIN_POSITIVE,
        2.2250738585072019e-308,
        1e-300,
        0.1,
        0.3,
        0.5,
        0.9999999999999999,
        1.0,
        1.0000000000000002,
        1.5,
        2.0,
        1e300,
        f64::MAX,
        f64::INFINITY,
        f64::NAN,
        -f64::NAN,
    ]
}

#[test]
fn patterns_of_the_constants() {
    assert_eq!(Scalar::zero().to_bits(), 0.0f64.to_bits());
    assert_eq!(Scalar::one().to_bits(), 1.0f64.to_bits());
    assert_eq!(Scalar::minus_one().to_bits(), (-1.0f64).to_bits());
    assert_eq!(ONE_BITS, 1.0f64.to_bits());
    assert_eq!(MINUS_ONE_BITS, (-1.0f64).to_bits());
    assert_eq!(INFINITY_BITS, f64::INFINITY.to_bits());
    assert_eq!(SIGN_BIT, (-0.0f64).to_bits());
}

#[test]
fn classification_matches_the_numbers() {
    for x in landmarks() {
        let s = sc(x);
        assert_eq!(s.nan(), x.is_nan());
        assert_eq!(s.sign(), x.is_sign_negative());
        assert_eq!(s.abs_bits(), x.abs().to_bits());
        assert_eq!(s.to_bits(), x.to_bits());
    }
}

#[test]
fn order_matches_the_numbers() {
    for x in landmarks() {
        for y in landmarks() {
            assert_eq!(sc(x).lt(sc(y)), x < y, "{} < {}", x, y);
            assert_eq!(sc(x).gt(sc(y)), x > y, "{} > {}", x, y);
        }
    }
}

#[test]
fn zero_and_minus_zero_are_equal_in_order_but_not_in_pattern() {
    assert!(!sc(0.0).lt(sc(-0.0)));
    assert!(!sc(-0.0).lt(sc(0.0)));
    assert!(sc(0.0) != sc(-0.0));
    assert!(sc(f64::NAN) == sc(f64::NAN));
}

#[test]
fn quantiser_landmarks() {
    assert_eq!(PCM_BIT_RANGE, 32767);
    assert_eq!(quantize(sc(0.0)), 0);
    assert_eq!(quantize(sc(-0.0)), 0);
    assert_eq!(quantize(sc(1.0)), 32767);
    assert_eq!(quantize(sc(-1.0)), -32767);
    assert_eq!(quantize(sc(0.5)), 16383);
    assert_eq!(quantize(sc(-0.5)), -16383);
    assert_eq!(quantize(sc(0.25)), 8191);
    assert_eq!(quantize(sc(0.1)), 3276);
    assert_eq!(quantize(sc(-0.1)), -3276);
    assert_eq!(quantize(sc(0.9999999999999999)), 32766);
    assert_eq!(quantize(sc(1.0 / 32768.0)), 0);
    assert_eq!(quantize(sc(1.0 / 16384.0)), 1);
    assert_eq!(quantize(sc(5e-324)), 0);
    assert_eq!(quantize(sc(f64::MIN_POSITIVE)), 0);
}

#[test]
fn quantiser_clamps() {
    for &x in &[1.0000000000000002, 1.5, 2.0, 1e10, 1e300, f64::MAX, f64::INFINITY] {
        assert_eq!(quantize(sc(x)), 32767);
        assert_eq!(quantize(sc(-x)), -32767);
    }
}

#[test]
fn quantiser_of_nan_is_zero() {
    assert_eq!(quantize(sc(f64::NAN)), 0);
    assert_eq!(quantize(sc(-f64::NAN)), 0);
    assert_eq!(quantize(Scalar::from_bits(0x7FF0_0000_0000_0001)), 0);
    assert_eq!(quantize(Scalar::from_bits(0xFFFF_FFFF_FFFF_FFFF)), 0);
}

#[test]
fn quantiser_never_leaves_full_scale() {
    let mut bits: u64 = 0x9E37_79B9_7F4A_7C15;
    for _ in 0..200_000 {
        bits ^= bits << 13;
        bits ^= bits >> 7;
        bits ^= bits << 17;
        let pcm = quantize(Scalar::from_bits(bits));
        assert!((-32767..=32767).contains(&pcm));
    }
}

#[test]
fn quantiser_agrees_with_scaling_in_floating_point() {
    // thousandths are not near a whole multiple of 1/32767, so rounding the
    // product before cutting it cannot change the result
    for k in -1500i32..=1500 {
        let x = k as f64 / 1000.0;
        let expected = (x.clamp(-1.0, 1.0) * 32767.0) as i16;
        assert_eq!(quantize(sc(x)), expected, "{}", x);
    }
    for i in 0..10_000u32 {
        let x = (i as f64 * 0.7311).sin() * 0.8;
        let product = x * 32767.0;
        if (product - product.round()).abs() > 1e-6 {
            assert_eq!(quantize(sc(x)), product as i16, "{}", x);
        }
    }
}

#[test]
fn quantiser_cuts_exactly() {
    // the double just below 1/32767 * k is below the boundary: the exact
    // product has not reached k
    let below = f64::from_bits((3.0f64 / 32767.0).to_bits() - 1);
    assert_eq!(quantize(sc(below)), 2);
    let above = f64::from_bits((3.0f64 / 32767.0).to_bits() + 1);
    assert_eq!(quantize(sc(above)), 3);
}
