use nurbs_kernel::algorithms::{all_bernstein, compute_bernstein};
use nurbs_kernel::error::EvalError;

#[test]
fn compute_bernstein_should_work() {
    let u: f64 = 0.2;

    assert_eq!(compute_bernstein(0, 1, u), Ok(1.0 - u));
    assert_eq!(compute_bernstein(1, 1, u), Ok(u));
    assert_eq!(compute_bernstein(0, 2, u), Ok((1.0 - u).powi(2)));
    assert_eq!(compute_bernstein(1, 2, u), Ok(2.0 * u * (1.0 - u)));
    assert_eq!(compute_bernstein(2, 2, u), Ok(u.powi(2)));
}

#[test]
fn all_bernstein_should_work() {
    let u: f64 = 0.4;

    assert_eq!(all_bernstein(2, u), vec![(1.0 - u) * (1.0 - u), u * (1.0 - u) + (1.0 - u) * u, u * u]);
}

#[test]
fn bernstein_at_the_ends_of_the_interval() {
    for n in 1..8usize {
        assert_eq!(compute_bernstein(0, n, 0.0), Ok(1.0));
        assert_eq!(compute_bernstein(0, n, 1.0), Ok(0.0));
        assert_eq!(compute_bernstein(n, n, 1.0), Ok(1.0));
        assert_eq!(compute_bernstein(n, n, 0.0), Ok(0.0));
    }
    assert_eq!(compute_bernstein(0, 0, 0.0), Ok(1.0));
    assert_eq!(compute_bernstein(0, 0, 0.75), Ok(1.0));
}

#[test]
fn all_bernstein_sums_to_one() {
    for n in 0..8usize {
        for u in [0.0f64, 0.125, 0.25, 0.5, 0.75, 1.0] {
            let table = all_bernstein(n, u);
            assert_eq!(table.len(), n + 1);
            assert_eq!(table.iter().sum::<f64>(), 1.0);
        }
    }
}

#[test]
fn all_bernstein_agrees_with_compute_bernstein() {
    for n in 0..6usize {
        for u in [0.0f64, 0.25, 0.5, 0.625, 1.0] {
            let table = all_bernstein(n, u);
            for i in 0..=n {
                assert_eq!(compute_bernstein(i, n, u), Ok(table[i]));
            }
        }
    }
}

#[test]
fn bernstein_cubic_has_known_values() {
    assert_eq!(all_bernstein(3, 0.25), vec![0.421875, 0.421875, 0.140625, 0.015625]);
    assert_eq!(compute_bernstein(1, 3, 0.5), Ok(0.375));
    assert_eq!(all_bernstein(0, 0.3), vec![1.0]);
    assert_eq!(all_bernstein(1, 0.25), vec![0.75, 0.25]);
}

#[test]
fn bernstein_refuses_an_index_above_the_degree() {
    assert_eq!(compute_bernstein(3, 2, 0.5), Err(EvalError::Index));
    assert_eq!(compute_bernstein(1, 0, 0.5), Err(EvalError::Index));
}
