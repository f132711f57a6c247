use nurbs_kernel::binary64::Binary64;

fn pattern(x: f64) -> Binary64 {
    Binary64::from_bits(x.to_bits())
}

fn samples() -> Vec<f64> {
    vec![
        f64::MIN,
        -1.0e300,
        -4.0,
        -2.5,
        -1.0,
        -f64::MIN_POSITIVE,
        -1.0e-310,
        -5.0e-324,
        0.0,
        5.0e-324,
        1.0e-310,
        f64::MIN_POSITIVE,
        0.1,
        0.5,
        1.0,
        1.0 + f64::EPSILON,
        2.0,
        2.5,
        1.0e300,
        f64::MAX,
    ]
}

#[test]
fn patterns_keep_their_bits() {
    for x in samples() {
        assert_eq!(pattern(x).to_bits(), x.to_bits());
        assert_eq!(pattern(x).bits, x.to_bits());
    }
    assert_eq!(Binary64::from_bits(0x4004_0000_0000_0000).to_bits(), 2.5f64.to_bits());
}

#[test]
fn finite_patterns_are_the_numbers() {
    for x in samples() {
        assert!(pattern(x).is_finite());
    }
    assert!(pattern(-0.0).is_finite());
    assert!(!pattern(f64::INFINITY).is_finite());
    assert!(!pattern(f64::NEG_INFINITY).is_finite());
    assert!(!pattern(f64::NAN).is_finite());
    assert!(!Binary64::from_bits(0x7ff0_0000_0000_0001).is_finite());
    assert!(!Binary64::from_bits(0xffff_ffff_ffff_ffff).is_finite());
    assert!(Binary64::from_bits(0x7fef_ffff_ffff_ffff).is_finite());
}

#[test]
fn comparisons_order_as_the_numbers() {
    let values = samples();
    for a in values.iter() {
        for b in values.iter() {
            assert_eq!(pattern(*a).lt(&pattern(*b)), a < b);
            assert_eq!(pattern(*a).le(&pattern(*b)), a <= b);
            assert_eq!(pattern(*a).same_value(&pattern(*b)), a == b);
            assert_eq!(pattern(*a).key() < pattern(*b).key(), a < b);
        }
    }
}

#[test]
fn both_zeros_are_one_number() {
    assert!(pattern(-0.0).same_value(&pattern(0.0)));
    assert!(pattern(0.0).le(&pattern(-0.0)));
    assert!(pattern(-0.0).le(&pattern(0.0)));
    assert!(!pattern(-0.0).lt(&pattern(0.0)));
    assert!(!pattern(0.0).lt(&pattern(-0.0)));
    assert_eq!(pattern(-0.0).key(), 0);
    assert_eq!(pattern(0.0).key(), 0);
}

#[test]
fn keys_are_the_signed_magnitudes() {
    assert_eq!(pattern(5.0e-324).key(), 1);
    assert_eq!(pattern(-5.0e-324).key(), -1);
    assert_eq!(pattern(1.0).key(), 0x3ff0_0000_0000_0000);
    assert_eq!(pattern(-1.0).key(), -0x3ff0_0000_0000_0000);
    assert_eq!(pattern(f64::MAX).key(), 0x7fef_ffff_ffff_ffff);
    assert_eq!(pattern(f64::MIN).key(), -0x7fef_ffff_ffff_ffff);
    assert_eq!(Binary64::from_bits(u64::MAX).key(), -i64::MAX);
}
