use phasedm::float_order::{eq, is_nan, key, lt, ONE_BITS, ZERO_BITS};

#[test]
fn named_patterns_match_the_floats() {
    assert_eq!(ZERO_BITS, 0.0f64.to_bits());
    assert_eq!(ONE_BITS, 1.0f64.to_bits());
}

#[test]
fn order_matches_float_comparison() {
    let values = [
        f64::NEG_INFINITY,
        -2.5,
        -1e-310,
        -0.0,
        0.0,
        1e-310,
        0.5,
        1.0,
        3.0e100,
        f64::INFINITY,
        f64::NAN,
    ];
    for &a in values.iter() {
        for &b in values.iter() {
            assert_eq!(lt(a.to_bits(), b.to_bits()), a < b, "{} < {}", a, b);
            assert_eq!(eq(a.to_bits(), b.to_bits()), a == b, "{} == {}", a, b);
        }
    }
}

#[test]
fn nan_and_keys() {
    assert!(is_nan(f64::NAN.to_bits()));
    assert!(!is_nan(f64::INFINITY.to_bits()));
    assert_eq!(key((-0.0f64).to_bits()), 0);
    assert_eq!(key(0.0f64.to_bits()), 0);
    assert_eq!(key(1.0f64.to_bits()), 0x3ff0_0000_0000_0000);
    assert_eq!(key((-1.0f64).to_bits()), -0x3ff0_0000_0000_0000);
}
