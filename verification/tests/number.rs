use lox_vm::number::{is_equal, is_less, is_nan, is_zero, negate};

fn samples() -> Vec<f64> {
    let mut values = vec![
        0.0,
        -0.0,
        1.0,
        -1.0,
        1.2,
        3.4,
        -4.6,
        0.5,
        2.0,
        1e300,
        -1e300,
        1e-300,
        f64::MIN_POSITIVE,
        -f64::MIN_POSITIVE,
        f64::MAX,
        f64::MIN,
        f64::EPSILON,
        f64::INFINITY,
        f64::NEG_INFINITY,
        f64::NAN,
        -f64::NAN,
        f64::from_bits(1),
        f64::from_bits(0x8000_0000_0000_0001),
        f64::from_bits(0x7FF0_0000_0000_0001),
        f64::from_bits(0xFFFF_FFFF_FFFF_FFFF),
        f64::from_bits(0x000F_FFFF_FFFF_FFFF),
    ];
    let mut seed: u64 = 0x9E37_79B9_7F4A_7C15;
    for _ in 0..200 {
        seed = seed.wrapping_mul(6364136223846793005).wrapping_add(1442695040888963407);
        values.push(f64::from_bits(seed));
    }
    values
}

#[test]
fn classification_agrees_with_hardware() {
    for v in samples() {
        assert_eq!(is_nan(v.to_bits()), v.is_nan(), "{:?}", v);
        assert_eq!(is_zero(v.to_bits()), v == 0.0, "{:?}", v);
    }
}

#[test]
fn negation_agrees_with_hardware() {
    for v in samples() {
        assert_eq!(negate(v.to_bits()), (-v).to_bits(), "{:?}", v);
    }
    assert_eq!(negate(0), 0x8000_0000_0000_0000);
    assert_eq!(negate(0x8000_0000_0000_0000), 0);
}

#[test]
fn comparison_agrees_with_hardware() {
    let values = samples();
    for a in &values {
        for b in &values {
            assert_eq!(is_equal(a.to_bits(), b.to_bits()), a == b, "{:?} == {:?}", a, b);
            assert_eq!(is_less(a.to_bits(), b.to_bits()), a < b, "{:?} < {:?}", a, b);
        }
    }
}

#[test]
fn zeros_are_equal_and_nan_is_not() {
    assert!(is_equal(0.0f64.to_bits(), (-0.0f64).to_bits()));
    assert!(!is_less((-0.0f64).to_bits(), 0.0f64.to_bits()));
    assert!(!is_equal(f64::NAN.to_bits(), f64::NAN.to_bits()));
    assert!(!is_less(f64::NAN.to_bits(), f64::INFINITY.to_bits()));
    assert!(is_less(f64::NEG_INFINITY.to_bits(), f64::MIN.to_bits()));
}
