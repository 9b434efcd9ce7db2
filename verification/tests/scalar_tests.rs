use analytics::scalar::Scalar;

fn scalar(x: f64) -> Scalar {
    Scalar::from_bits(x.to_bits())
}

fn samples() -> Vec<f64> {
    vec![
        f64::NEG_INFINITY,
        f64::MIN,
        -1e300,
        -4294967296.5,
        -3.0,
        -1.0,
        -0.5,
        -f64::MIN_POSITIVE,
        -5e-324,
        -0.0,
        0.0,
        5e-324,
        f64::MIN_POSITIVE,
        0.3,
        0.999_999_999_999_999_9,
        1.0,
        1.000_000_000_000_000_2,
        1.5,
        2.0,
        3.0,
        255.999,
        65536.0,
        31_536_000.0,
        454_853_030.0,
        4294967295.0,
        4294967295.5,
        4294967296.0,
        4294967297.0,
        1e19,
        1e300,
        f64::MAX,
        f64::INFINITY,
    ]
}

#[test]
fn order_key_orders_as_the_numbers_do() {
    let xs = samples();
    for &a in &xs {
        for &b in &xs {
            let (ka, kb) = (scalar(a).sort_key(), scalar(b).sort_key());
            assert_eq!(ka < kb, a < b, "{} < {}", a, b);
            assert_eq!(ka == kb, a == b, "{} == {}", a, b);
            assert_eq!(scalar(a).le(scalar(b)), a <= b, "{} <= {}", a, b);
        }
    }
}

#[test]
fn order_key_exact_values() {
    assert_eq!(scalar(0.0).sort_key(), 0);
    assert_eq!(scalar(-0.0).sort_key(), 0);
    assert_eq!(scalar(1.0).sort_key(), 0x3ff0_0000_0000_0000);
    assert_eq!(scalar(-1.0).sort_key(), -0x3ff0_0000_0000_0000);
    assert_eq!(scalar(2.0).sort_key(), 0x4000_0000_0000_0000);
    assert_eq!(scalar(f64::INFINITY).sort_key(), 0x7ff0_0000_0000_0000);
    assert_eq!(scalar(f64::NEG_INFINITY).sort_key(), -0x7ff0_0000_0000_0000);
    assert_eq!(scalar(5e-324).sort_key(), 1);
}

#[test]
fn what_is_not_a_number_sorts_last() {
    let nans = [f64::NAN, -f64::NAN, f64::from_bits(0x7ff0_0000_0000_0001), f64::from_bits(u64::MAX)];
    for n in nans {
        assert!(scalar(n).is_nan());
        assert_eq!(scalar(n).sort_key(), 0x7ff0_0000_0000_0001);
        assert!(!scalar(n).is_positive());
        assert_eq!(scalar(n).to_u32(), 0);
        for x in samples() {
            assert!(scalar(x).sort_key() < scalar(n).sort_key());
            assert!(!scalar(x).is_nan());
        }
    }
}

#[test]
fn bits_round_trip() {
    for x in samples() {
        assert_eq!(scalar(x).to_bits(), x.to_bits());
        assert_eq!(Scalar::from_bits(x.to_bits()), scalar(x));
    }
    assert_eq!(Scalar::zero().to_bits(), 0);
    assert_eq!(f64::from_bits(Scalar::zero().to_bits()), 0.0);
    assert_ne!(scalar(0.0), scalar(-0.0));
}

#[test]
fn is_positive_is_above_zero() {
    for x in samples() {
        assert_eq!(scalar(x).is_positive(), x > 0.0, "{}", x);
    }
}

#[test]
fn to_u32_cuts_as_a_cast_does() {
    for x in samples() {
        assert_eq!(scalar(x).to_u32(), x as u32, "{}", x);
    }
    let mut bits: u64 = 0x3fe0_0000_0000_0000;
    while bits < 0x4200_0000_0000_0000 {
        let x = f64::from_bits(bits);
        assert_eq!(Scalar::from_bits(bits).to_u32(), x as u32, "{}", x);
        bits += 0x0000_0123_4567_89ab;
    }
    assert_eq!(scalar(1.999).to_u32(), 1);
    assert_eq!(scalar(4294967295.9).to_u32(), 4294967295);
    assert_eq!(scalar(1e10).to_u32(), u32::MAX);
    assert_eq!(scalar(-7.0).to_u32(), 0);
}
