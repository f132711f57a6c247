use nurbs_kernel::algorithms::{check_basis_arguments, check_derivative_arguments, find_span, knots_are_valid};
use nurbs_kernel::binary64::Binary64;
use nurbs_kernel::error::EvalError;

fn pattern(x: f64) -> Binary64 {
    Binary64::from_bits(x.to_bits())
}

fn patterns(values: &[f64]) -> Vec<Binary64> {
    values.iter().map(|x| pattern(*x)).collect()
}

const KNOTS: [f64; 11] = [0.0, 0.0, 0.0, 1.0, 2.0, 3.0, 4.0, 4.0, 5.0, 5.0, 5.0];

#[test]
fn span_of_the_last_knot_is_the_last_span() {
    assert_eq!(find_span(7, 2, pattern(5.0), patterns(&KNOTS)), Ok(7));
    assert_eq!(find_span(9, 2, pattern(5.0), patterns(&KNOTS)), Ok(9));
    assert_eq!(find_span(5, 2, pattern(4.0), patterns(&KNOTS)), Ok(5));
    assert_eq!(find_span(4, 2, pattern(3.0), patterns(&KNOTS)), Ok(4));
}

#[test]
fn span_encloses_the_parameter() {
    let knots = patterns(&KNOTS);
    for (u, expected) in
        [(0.0f64, 2usize), (0.5, 2), (1.0, 3), (1.5, 3), (2.0, 4), (2.999, 4), (3.0, 5), (3.5, 5), (4.0, 7), (4.75, 7)]
    {
        let span = find_span(7, 2, pattern(u), knots.clone()).unwrap();
        assert_eq!(span, expected);
        assert!(KNOTS[span] <= u && u < KNOTS[span + 1]);
    }
}

#[test]
fn span_of_negative_zero_is_the_span_of_zero() {
    assert_eq!(find_span(7, 2, pattern(-0.0), patterns(&KNOTS)), Ok(2));
}

#[test]
fn span_among_negative_and_tiny_knots() {
    let values = [-8.0, -8.0, -2.5, -1.0e-310, 0.0, 5.0e-324, 1.0e-300, 3.0, 3.0];
    let knots = patterns(&values);
    for (u, expected) in [(-8.0f64, 1usize), (-3.0, 1), (-2.5, 2), (-1.0e-320, 3), (-0.0, 4), (4.0e-324, 5), (2.0, 6)] {
        assert_eq!(find_span(6, 1, pattern(u), knots.clone()), Ok(expected));
    }
    assert_eq!(find_span(6, 1, pattern(3.0), knots), Ok(6));
}

#[test]
fn span_search_refuses_indices_that_do_not_fit() {
    let knots = patterns(&KNOTS);
    assert_eq!(find_span(1, 2, pattern(2.5), knots.clone()), Err(EvalError::Index));
    assert_eq!(find_span(10, 2, pattern(2.5), knots.clone()), Err(EvalError::Index));
    assert_eq!(find_span(usize::MAX, 2, pattern(2.5), knots.clone()), Err(EvalError::Index));
    assert_eq!(find_span(0, 0, pattern(0.0), Vec::new()), Err(EvalError::Index));
    assert_eq!(find_span(9, 9, pattern(5.0), knots), Ok(9));
}

#[test]
fn span_search_refuses_a_parameter_outside_the_domain() {
    let knots = patterns(&KNOTS);
    assert_eq!(find_span(7, 2, pattern(-0.5), knots.clone()), Err(EvalError::Domain));
    assert_eq!(find_span(7, 2, pattern(5.5), knots.clone()), Err(EvalError::Domain));
    assert_eq!(find_span(4, 3, pattern(0.5), knots.clone()), Err(EvalError::Domain));
    assert_eq!(find_span(4, 3, pattern(3.5), knots.clone()), Err(EvalError::Domain));
    assert_eq!(find_span(7, 2, pattern(f64::NAN), knots.clone()), Err(EvalError::Domain));
    assert_eq!(find_span(7, 2, pattern(f64::INFINITY), knots.clone()), Err(EvalError::Domain));
    assert_eq!(find_span(7, 2, pattern(f64::NEG_INFINITY), knots), Err(EvalError::Domain));
}

#[test]
fn span_search_refuses_knots_that_are_no_knot_vector() {
    let unordered = patterns(&[0.0, 0.0, 0.0, 2.0, 1.0, 3.0, 4.0, 4.0, 5.0, 5.0, 5.0]);
    assert_eq!(find_span(7, 2, pattern(2.5), unordered), Err(EvalError::Domain));
    let unordered_after_the_domain = patterns(&[0.0, 0.0, 0.0, 1.0, 2.0, 3.0, 4.0, 4.0, 5.0, 6.0, 5.0]);
    assert_eq!(find_span(7, 2, pattern(2.5), unordered_after_the_domain), Err(EvalError::Domain));
    let with_a_gap = patterns(&[0.0, 0.0, 0.0, 1.0, f64::NAN, 3.0, 4.0, 4.0, 5.0, 5.0, 5.0]);
    assert_eq!(find_span(7, 2, pattern(2.5), with_a_gap), Err(EvalError::Domain));
    let unbounded = patterns(&[0.0, 0.0, 0.0, 1.0, 2.0, 3.0, 4.0, 4.0, 5.0, 5.0, f64::INFINITY]);
    assert_eq!(find_span(7, 2, pattern(2.5), unbounded), Err(EvalError::Domain));
}

#[test]
fn knot_vectors_are_recognised() {
    assert!(knots_are_valid(&patterns(&KNOTS)));
    assert!(knots_are_valid(&patterns(&[])));
    assert!(knots_are_valid(&patterns(&[-1.0, -0.0, 0.0, -0.0, 1.0])));
    assert!(!knots_are_valid(&patterns(&[0.0, 1.0, 0.5])));
    assert!(!knots_are_valid(&patterns(&[0.0, -1.0e-320])));
    assert!(!knots_are_valid(&patterns(&[f64::NEG_INFINITY, 0.0])));
    assert!(!knots_are_valid(&patterns(&[0.0, f64::NAN])));
}

#[test]
fn basis_arguments_are_checked() {
    let knots = patterns(&KNOTS);
    assert_eq!(check_basis_arguments(4, pattern(2.5), 2, &knots), Ok(()));
    assert_eq!(check_basis_arguments(4, pattern(2.0), 2, &knots), Ok(()));
    assert_eq!(check_basis_arguments(4, pattern(3.0), 2, &knots), Ok(()));
    assert_eq!(check_basis_arguments(7, pattern(5.0), 2, &knots), Ok(()));
    assert_eq!(check_basis_arguments(4, pattern(2.5), 0, &knots), Ok(()));
    assert_eq!(check_basis_arguments(4, pattern(3.5), 2, &knots), Err(EvalError::Domain));
    assert_eq!(check_basis_arguments(4, pattern(1.5), 2, &knots), Err(EvalError::Domain));
    assert_eq!(check_basis_arguments(4, pattern(f64::NAN), 2, &knots), Err(EvalError::Domain));
    assert_eq!(check_basis_arguments(1, pattern(0.0), 2, &knots), Err(EvalError::Index));
    assert_eq!(check_basis_arguments(9, pattern(5.0), 2, &knots), Err(EvalError::Index));
    assert_eq!(check_basis_arguments(10, pattern(5.0), 0, &knots), Err(EvalError::Index));
    assert_eq!(check_basis_arguments(9, pattern(5.0), 0, &knots), Ok(()));
    let unordered = patterns(&[0.0, 0.0, 0.0, 2.0, 1.0, 3.0, 4.0, 4.0, 5.0, 5.0, 5.0]);
    assert_eq!(check_basis_arguments(5, pattern(3.5), 2, &unordered), Err(EvalError::Domain));
    assert_eq!(check_basis_arguments(9, pattern(3.5), 2, &unordered), Err(EvalError::Index));
}

#[test]
fn derivative_arguments_are_checked() {
    let knots = patterns(&KNOTS);
    assert_eq!(check_derivative_arguments(4, pattern(2.5), 2, 0, &knots), Ok(()));
    assert_eq!(check_derivative_arguments(4, pattern(2.5), 2, 2, &knots), Ok(()));
    assert_eq!(check_derivative_arguments(4, pattern(2.5), 2, 3, &knots), Err(EvalError::Index));
    assert_eq!(check_derivative_arguments(4, pattern(3.5), 2, 3, &knots), Err(EvalError::Index));
    assert_eq!(check_derivative_arguments(4, pattern(3.5), 2, 2, &knots), Err(EvalError::Domain));
    assert_eq!(check_derivative_arguments(1, pattern(0.5), 2, 1, &knots), Err(EvalError::Index));
}
