use nurbs_kernel::scalar::{divide, filled, from_whole};

#[test]
fn whole_numbers_convert() {
    assert_eq!(from_whole::<f64>(0), 0.0);
    assert_eq!(from_whole::<f64>(1), 1.0);
    assert_eq!(from_whole::<f64>(4_000_000_000), 4.0e9);
    assert_eq!(from_whole::<i64>(7), 7);
}

#[test]
fn quotient_by_zero_is_zero() {
    assert_eq!(divide(1.0, 4.0), 0.25);
    assert_eq!(divide(-3.0, 2.0), -1.5);
    assert_eq!(divide(1.0, 0.0), 0.0);
    assert_eq!(divide(0.0, 0.0), 0.0);
    assert_eq!(divide(-1.0, -0.0), 0.0);
}

#[test]
fn vectors_are_filled_with_copies() {
    assert_eq!(filled(3, 1.5), vec![1.5, 1.5, 1.5]);
    assert_eq!(filled(1, 0u8), vec![0u8]);
    assert_eq!(filled(0, 2.0), Vec::<f64>::new());
}
