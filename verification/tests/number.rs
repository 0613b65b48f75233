use lox_bytecode::number::{equal, greater, less, nan, negate, INFINITY_BITS, SIGN_BIT};

fn samples() -> Vec<f64> {
    vec![
        0.0,
        -0.0,
        1.0,
        -1.0,
        0.5,
        -0.5,
        2.0,
        1e300,
        -1e300,
        5e-324,
        -5e-324,
        f64::MIN_POSITIVE,
        f64::MAX,
        f64::MIN,
        f64::INFINITY,
        f64::NEG_INFINITY,
        f64::NAN,
        -f64::NAN,
        f64::from_bits(0x7ff0_0000_0000_0001),
        f64::from_bits(0xffff_ffff_ffff_ffff),
        3.141592653589793,
        86.0,
        22.0,
    ]
}

#[test]
fn test_equal_is_float_equality() {
    for a in samples() {
        for b in samples() {
            assert_eq!(equal(a.to_bits(), b.to_bits()), a == b, "{:?} == {:?}", a, b);
        }
    }
}

#[test]
fn test_less_and_greater_are_float_order() {
    for a in samples() {
        for b in samples() {
            assert_eq!(less(a.to_bits(), b.to_bits()), a < b, "{:?} < {:?}", a, b);
            assert_eq!(greater(a.to_bits(), b.to_bits()), a > b, "{:?} > {:?}", a, b);
        }
    }
}

#[test]
fn test_negate_is_float_negation() {
    for a in samples() {
        assert_eq!(negate(a.to_bits()), (-a).to_bits(), "-{:?}", a);
    }
    assert_eq!(negate(0), SIGN_BIT);
    assert_eq!(negate(SIGN_BIT), 0);
    assert_eq!(negate(1.5f64.to_bits()), (-1.5f64).to_bits());
}

#[test]
fn test_negate_twice_is_identity() {
    for a in samples() {
        assert_eq!(negate(negate(a.to_bits())), a.to_bits());
    }
}

#[test]
fn test_nan_is_float_nan() {
    for a in samples() {
        assert_eq!(nan(a.to_bits()), a.is_nan(), "{:?}", a);
    }
    assert!(!nan(INFINITY_BITS));
    assert!(nan(INFINITY_BITS + 1));
    assert!(!nan(INFINITY_BITS + SIGN_BIT));
}

#[test]
fn test_zeros_are_equal_and_unordered() {
    let plus = 0.0f64.to_bits();
    let minus = (-0.0f64).to_bits();
    assert!(equal(plus, minus));
    assert!(!less(minus, plus));
    assert!(!less(plus, minus));
}
