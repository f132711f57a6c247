use nurbs_kernel::algorithms::{derivative_window, DerivativeWindow};
use nurbs_kernel::error::EvalError;

#[test]
fn windows_of_a_quadratic() {
    assert_eq!(derivative_window(2, 0, 1), Ok(DerivativeWindow { leading: false, first: 1, end: 1, trailing: true }));
    assert_eq!(derivative_window(2, 1, 1), Ok(DerivativeWindow { leading: true, first: 1, end: 1, trailing: true }));
    assert_eq!(derivative_window(2, 2, 1), Ok(DerivativeWindow { leading: true, first: 1, end: 1, trailing: false }));
    assert_eq!(derivative_window(2, 0, 2), Ok(DerivativeWindow { leading: false, first: 2, end: 2, trailing: true }));
    assert_eq!(derivative_window(2, 1, 2), Ok(DerivativeWindow { leading: false, first: 1, end: 2, trailing: false }));
    assert_eq!(derivative_window(2, 2, 2), Ok(DerivativeWindow { leading: true, first: 1, end: 1, trailing: false }));
}

#[test]
fn windows_follow_the_clamping_rules() {
    for p in 1..7i64 {
        for r in 0..=p {
            for k in 1..=p {
                let rk = r - k;
                let pk = p - k;
                let j1 = if rk >= -1 { 1 } else { -rk };
                let j2 = if r - 1 <= pk { k - 1 } else { p - r };
                let window = derivative_window(p as usize, r as usize, k as usize).unwrap();
                assert_eq!(window.leading, r >= k);
                assert_eq!(window.first as i64, j1);
                assert_eq!(window.end as i64, j2 + 1);
                assert_eq!(window.trailing, r <= pk);
                for j in window.first..window.end {
                    let j = j as i64;
                    assert!(1 <= j && j < k);
                    assert!(0 <= rk + j && rk + j <= pk);
                }
                assert!(window.leading || window.trailing || window.first < window.end);
            }
        }
    }
}

#[test]
fn windows_refuse_steps_out_of_range() {
    assert_eq!(derivative_window(2, 3, 1), Err(EvalError::Index));
    assert_eq!(derivative_window(2, 0, 0), Err(EvalError::Index));
    assert_eq!(derivative_window(2, 0, 3), Err(EvalError::Index));
    assert_eq!(derivative_window(0, 0, 1), Err(EvalError::Index));
    assert_eq!(derivative_window(usize::MAX, usize::MAX, usize::MAX).map(|w| w.leading), Ok(true));
}
