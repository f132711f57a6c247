use ndarray::arr2;
use nurbs_kernel::algorithms::{
    calculate_basis_functions, calculate_basis_functions_and_derivatives, calculate_one_basis_function, find_span,
    start_one_basis_function, BasisStart,
};
use nurbs_kernel::binary64::Binary64;
use nurbs_kernel::error::EvalError;

fn pattern(x: f64) -> Binary64 {
    Binary64::from_bits(x.to_bits())
}

fn patterns(values: &[f64]) -> Vec<Binary64> {
    values.iter().map(|x| pattern(*x)).collect()
}

#[test]
fn find_span_should_work() {
    let n = 9;
    let p = 2;
    let knots = vec![0.0, 0.0, 0.0, 1.0, 2.0, 3.0, 4.0, 4.0, 5.0, 5.0, 5.0];
    let u = 5.0 / 2.0;

    let expected = 4;

    let actual = find_span(n, p, pattern(u), patterns(&knots));

    assert_eq!(actual, Ok(expected));
}

#[test]
fn calculate_basis_functions_should_work() {
    let knots = vec![0.0, 0.0, 0.0, 1.0, 2.0, 3.0, 4.0, 4.0, 5.0, 5.0, 5.0];
    let u = 5.0 / 2.0;
    let span = 4;

    let actual = calculate_basis_functions(span, u, 2, knots.to_vec());
    let expected = vec![0.125, 0.75, 0.125];

    assert_eq!(actual, Ok(expected));

    let actual = calculate_basis_functions(span, u, 1, knots.to_vec());
    let expected = vec![0.5, 0.5];

    assert_eq!(actual, Ok(expected));

    let actual = calculate_basis_functions(span, u, 0, knots.to_vec());
    let expected = vec![1.0];

    assert_eq!(actual, Ok(expected));
}

#[test]
fn calculate_basis_functions_and_derivatives_should_work() {
    let knots = vec![0.0, 0.0, 0.0, 1.0, 2.0, 3.0, 4.0, 4.0, 5.0, 5.0, 5.0];
    let u = 5.0 / 2.0;
    let span = 4;

    let actual = calculate_basis_functions_and_derivatives(span, u, 2, 2, knots).unwrap();
    // rows: the functions N2,2 N3,2 N4,2, their first and their second derivatives
    let expected = arr2(&[[0.125, 0.75, 0.125], [-0.5, 0.0, 0.5], [0.0, 0.0, 1.0]]);

    assert_eq!(actual.len(), 3);
    assert_eq!(actual[0], expected.row(0).to_vec());
    assert_eq!(actual[1], expected.row(1).to_vec());
    assert_eq!(actual[2].len(), 3);
    assert_eq!(actual[2][2], expected[[2, 2]]);
}

#[test]
fn calculate_one_basis_function_should_work() {
    let knots = vec![0.0, 0.0, 0.0, 1.0, 2.0, 3.0, 4.0, 4.0, 5.0, 5.0, 5.0];
    let u = 5.0 / 2.0;

    let start = start_one_basis_function(2, knots.len() - 1, &patterns(&knots), 4, pattern(u)).unwrap();
    let actual = calculate_one_basis_function(2, knots.len() - 1, knots.to_vec(), 4, u, &start);
    let expected = 1.0 / 8.0;

    assert_eq!(actual, Ok(expected));

    let start = start_one_basis_function(2, knots.len() - 1, &patterns(&knots), 3, pattern(u)).unwrap();
    let actual = calculate_one_basis_function(2, knots.len() - 1, knots.to_vec(), 3, u, &start);
    let expected = 6.0 / 8.0;

    assert_eq!(actual, Ok(expected));
}

#[test]
fn second_derivatives_of_a_quadratic_basis() {
    let knots = vec![0.0, 0.0, 0.0, 1.0, 2.0, 3.0, 4.0, 4.0, 5.0, 5.0, 5.0];
    let table = calculate_basis_functions_and_derivatives(4, 2.5, 2, 2, knots).unwrap();
    assert_eq!(table, vec![vec![0.125, 0.75, 0.125], vec![-0.5, 0.0, 0.5], vec![1.0, -2.0, 1.0]]);
}

#[test]
fn derivatives_of_each_order_sum_to_zero() {
    let knots = vec![0.0, 0.0, 0.0, 0.0, 1.0, 1.0, 1.0, 1.0];
    let table = calculate_basis_functions_and_derivatives(3, 0.25, 3, 3, knots).unwrap();
    assert_eq!(table.len(), 4);
    assert_eq!(table[0].iter().sum::<f64>(), 1.0);
    for k in 1..4 {
        assert_eq!(table[k].len(), 4);
        assert_eq!(table[k].iter().sum::<f64>(), 0.0);
    }
}

#[test]
fn cubic_derivative_table_has_known_values() {
    let knots = vec![0.0, 0.0, 0.0, 0.0, 1.0, 1.0, 1.0, 1.0];
    let table = calculate_basis_functions_and_derivatives(3, 0.25, 3, 3, knots).unwrap();
    assert_eq!(
        table,
        vec![
            vec![0.421875, 0.421875, 0.140625, 0.015625],
            vec![-1.6875, 0.5625, 0.9375, 0.1875],
            vec![4.5, -7.5, 1.5, 1.5],
            vec![-6.0, 18.0, -18.0, 6.0],
        ]
    );
    let knots = vec![0.0, 0.0, 0.0, 1.0, 2.0, 3.0, 4.0, 4.0, 5.0, 5.0, 5.0];
    let table = calculate_basis_functions_and_derivatives(5, 3.25, 2, 2, knots).unwrap();
    assert_eq!(
        table,
        vec![vec![0.28125, 0.65625, 0.0625], vec![-0.75, 0.25, 0.5], vec![1.0, -3.0, 2.0]]
    );
}

#[test]
fn derivative_row_zero_is_the_basis_table() {
    let knots = vec![0.0, 0.0, 0.0, 0.0, 1.0, 2.0, 4.0, 4.0, 4.0, 4.0];
    let table = calculate_basis_functions_and_derivatives(5, 3.25, 3, 1, knots.clone()).unwrap();
    let values = calculate_basis_functions(5, 3.25, 3, knots).unwrap();
    assert_eq!(values.len(), 4);
    assert_eq!(table[0], values);
}

#[test]
fn basis_functions_sum_to_one() {
    let knots = vec![0.0, 0.0, 0.0, 1.0, 2.0, 3.0, 4.0, 4.0, 5.0, 5.0, 5.0];
    for (span, u) in [(2usize, 0.0f64), (2, 0.5), (3, 1.25), (4, 2.5), (5, 3.75), (7, 4.5), (7, 5.0)] {
        for p in 0..3usize {
            let values = calculate_basis_functions(span, u, p, knots.clone()).unwrap();
            assert_eq!(values.len(), p + 1);
            assert_eq!(values.iter().sum::<f64>(), 1.0);
        }
    }
}

#[test]
fn basis_functions_at_the_last_knot() {
    let knots = vec![0.0, 0.0, 0.0, 1.0, 2.0, 3.0, 4.0, 4.0, 5.0, 5.0, 5.0];
    assert_eq!(calculate_basis_functions(7, 5.0, 2, knots), Ok(vec![0.0, 0.0, 1.0]));
}

#[test]
fn vanishing_denominator_counts_as_zero() {
    let knots = vec![0.0, 1.0, 1.0, 2.0];
    assert_eq!(calculate_basis_functions(1, 1.0, 1, knots), Ok(vec![0.0, 0.0]));
}

#[test]
fn basis_functions_refuse_a_window_outside_the_knots() {
    let knots = vec![0.0, 0.0, 0.0, 1.0, 2.0, 3.0, 4.0, 4.0, 5.0, 5.0, 5.0];
    assert_eq!(calculate_basis_functions(1, 0.5, 2, knots.clone()), Err(EvalError::Index));
    assert_eq!(calculate_basis_functions(9, 5.0, 2, knots.clone()), Err(EvalError::Index));
    assert_eq!(calculate_basis_functions(11, 5.0, 0, knots.clone()), Err(EvalError::Index));
    assert_eq!(calculate_basis_functions(8, 5.0, 2, knots), Ok(vec![0.0, 0.0, 0.0]));
}

#[test]
fn derivatives_refuse_an_order_above_the_degree() {
    let knots = vec![0.0, 0.0, 0.0, 1.0, 2.0, 3.0, 4.0, 4.0, 5.0, 5.0, 5.0];
    assert_eq!(calculate_basis_functions_and_derivatives(4, 2.5, 2, 3, knots.clone()), Err(EvalError::Index));
    assert_eq!(calculate_basis_functions_and_derivatives(1, 2.5, 2, 1, knots.clone()), Err(EvalError::Index));
    assert_eq!(calculate_basis_functions_and_derivatives(9, 2.5, 2, 1, knots.clone()), Err(EvalError::Index));
    assert_eq!(
        calculate_basis_functions_and_derivatives(4, 2.5, 0, 0, knots),
        Ok(vec![vec![1.0]])
    );
}

#[test]
fn one_basis_function_agrees_with_the_table() {
    let knots = vec![0.0, 0.0, 0.0, 1.0, 2.0, 3.0, 4.0, 4.0, 5.0, 5.0, 5.0];
    let m = knots.len() - 1;
    for (span, u) in [(2usize, 0.5f64), (3, 1.25), (4, 2.5), (5, 3.75), (7, 4.5)] {
        let values = calculate_basis_functions(span, u, 2, knots.clone()).unwrap();
        for r in 0..3usize {
            let index = span - 2 + r;
            let start = start_one_basis_function(2, m, &patterns(&knots), index, pattern(u)).unwrap();
            assert_eq!(calculate_one_basis_function(2, m, knots.clone(), index, u, &start), Ok(values[r]));
        }
    }
}

#[test]
fn one_basis_function_is_one_on_its_own_end() {
    let knots = vec![0.0, 0.0, 0.0, 1.0, 2.0, 3.0, 4.0, 4.0, 5.0, 5.0, 5.0];
    let m = knots.len() - 1;
    let start = start_one_basis_function(2, m, &patterns(&knots), 0, pattern(0.0)).unwrap();
    assert!(matches!(start, BasisStart::One));
    assert_eq!(calculate_one_basis_function(2, m, knots.clone(), 0, 0.0, &start), Ok(1.0));
    let start = start_one_basis_function(2, m, &patterns(&knots), 7, pattern(5.0)).unwrap();
    assert!(matches!(start, BasisStart::One));
    assert_eq!(calculate_one_basis_function(2, m, knots.clone(), 7, 5.0, &start), Ok(1.0));
    let start = start_one_basis_function(2, m, &patterns(&knots), 0, pattern(-0.0)).unwrap();
    assert!(matches!(start, BasisStart::One));
}

#[test]
fn one_basis_function_is_zero_outside_its_support() {
    let knots = vec![0.0, 0.0, 0.0, 1.0, 2.0, 3.0, 4.0, 4.0, 5.0, 5.0, 5.0];
    let m = knots.len() - 1;
    for (span, u) in [(3usize, 0.5f64), (3, 4.0), (3, 4.5), (4, 1.9), (0, 1.0), (6, 3.5)] {
        let start = start_one_basis_function(2, m, &patterns(&knots), span, pattern(u)).unwrap();
        assert!(matches!(start, BasisStart::Zero));
        assert_eq!(calculate_one_basis_function(2, m, knots.clone(), span, u, &start), Ok(0.0));
    }
}

#[test]
fn one_basis_function_starts_from_the_interval_of_the_parameter() {
    let knots = vec![0.0, 0.0, 0.0, 1.0, 2.0, 3.0, 4.0, 4.0, 5.0, 5.0, 5.0];
    let m = knots.len() - 1;
    match start_one_basis_function(2, m, &patterns(&knots), 3, pattern(2.5)).unwrap() {
        BasisStart::Table(table) => assert_eq!(table, vec![false, true, false]),
        _ => panic!("the parameter lies in the support"),
    }
    match start_one_basis_function(2, m, &patterns(&knots), 4, pattern(2.0)).unwrap() {
        BasisStart::Table(table) => assert_eq!(table, vec![true, false, false]),
        _ => panic!("the parameter lies in the support"),
    }
    match start_one_basis_function(2, m, &patterns(&knots), 5, pattern(4.5)).unwrap() {
        BasisStart::Table(table) => assert_eq!(table, vec![false, false, true]),
        _ => panic!("the parameter lies in the support"),
    }
}

#[test]
fn one_basis_function_refuses_what_does_not_fit() {
    let knots = vec![0.0, 0.0, 0.0, 1.0, 2.0, 3.0, 4.0, 4.0, 5.0, 5.0, 5.0];
    let m = knots.len() - 1;
    let bits = patterns(&knots);
    assert!(matches!(start_one_basis_function(2, m + 1, &bits, 3, pattern(2.5)), Err(EvalError::Index)));
    assert!(matches!(start_one_basis_function(2, m, &bits, 8, pattern(2.5)), Err(EvalError::Index)));
    assert!(matches!(start_one_basis_function(10, m, &bits, 0, pattern(2.5)), Err(EvalError::Index)));
    assert!(matches!(start_one_basis_function(2, m, &bits, 3, pattern(f64::NAN)), Err(EvalError::Domain)));
    assert!(matches!(start_one_basis_function(2, m, &bits, 3, pattern(f64::INFINITY)), Err(EvalError::Domain)));
    let unordered = patterns(&[0.0, 0.0, 0.0, 2.0, 1.0, 3.0, 4.0, 4.0, 5.0, 5.0, 5.0]);
    assert!(matches!(start_one_basis_function(2, m, &unordered, 3, pattern(2.5)), Err(EvalError::Domain)));

    let start = BasisStart::Table(vec![false, true]);
    assert_eq!(calculate_one_basis_function(2, m, knots.clone(), 3, 2.5, &start), Err(EvalError::Index));
    let start = BasisStart::Table(vec![false, true, false]);
    assert_eq!(calculate_one_basis_function(2, m + 1, knots.clone(), 3, 2.5, &start), Err(EvalError::Index));
    assert_eq!(calculate_one_basis_function(2, m, knots.clone(), 8, 2.5, &start), Err(EvalError::Index));
    assert_eq!(calculate_one_basis_function(2, m, knots, 3, 2.5, &start), Ok(0.75));
}
