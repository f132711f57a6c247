//! The index bookkeeping of the derivative recurrence.
//!
//! The derivatives of the basis functions of degree `p` are computed from a
//! square table with rows and columns `0..=p`. Its upper triangle, diagonal
//! included, holds basis function values: the cell in row `i` and column `j`
//! holds the function `i` of degree `j`. Its lower triangle holds knot
//! differences. For the basis function `r` and the derivative order `k`, a
//! step forms a sum of terms, one for each coefficient index `j` in `0..=k`
//! whose cells exist. Term `j` divides by the cell in row `p - k + 1` and
//! column `r - k + j`, a knot difference, and multiplies by the cell in row
//! `r - k + j` and column `p - k`, a basis function value of degree `p - k`.
//! The coefficients of one step are computed from those of the step before,
//! which are kept in the other one of two buffers.

use vstd::prelude::*;
use crate::error::EvalError;

verus! {

/// The terms of one step of the derivative recurrence.
#[derive(Clone, Copy, Debug, PartialEq, Eq, Structural)]
pub struct DerivativeWindow {
    /// The step has the term with coefficient index 0.
    pub leading: bool,
    /// The first coefficient index of the inner terms.
    pub first: usize,
    /// One more than the last coefficient index of the inner terms; where it
    /// is not above `first`, there are no inner terms.
    pub end: usize,
    /// The step has the term with coefficient index `k`.
    pub trailing: bool,
}

/// The basis function index and the derivative order of a step are in range
/// for the degree.
pub open spec fn step_in_range(p: int, r: int, k: int) -> bool {
    0 <= r <= p && 1 <= k <= p
}

/// The first coefficient index of the inner terms: 1, or the first index whose
/// column `r - k + j` is not negative, where that is later.
pub open spec fn window_first(r: int, k: int) -> int {
    if k - r > 1 {
        k - r
    } else {
        1
    }
}

/// The last coefficient index of the inner terms: `k - 1`, or the last index
/// whose row `r - k + j` is at most `p - k`, where that is earlier.
pub open spec fn window_last(p: int, r: int, k: int) -> int {
    if p - r < k - 1 {
        p - r
    } else {
        k - 1
    }
}

/// The step has the term with the coefficient index 0: its column `r - k` is
/// not negative.
pub open spec fn has_leading_term(r: int, k: int) -> bool {
    k <= r
}

/// The step has the term with the coefficient index `k`: its row `r` is at
/// most `p - k`.
pub open spec fn has_trailing_term(p: int, r: int, k: int) -> bool {
    r + k <= p
}

/// The coefficient index `j` names an inner term of the step.
pub open spec fn is_inner_term(p: int, r: int, k: int, j: int) -> bool {
    window_first(r, k) <= j <= window_last(p, r, k)
}

/// The coefficient index `j` names a term of the step.
pub open spec fn is_term(p: int, r: int, k: int, j: int) -> bool {
    ||| has_leading_term(r, k) && j == 0
    ||| is_inner_term(p, r, k, j)
    ||| has_trailing_term(p, r, k) && j == k
}

/// The lowest coefficient index that has a term in the step `k` of the basis
/// function `r`; for `k == 0` the one index, 0, that holds the start value.
pub open spec fn lowest_term(r: int, k: int) -> int {
    if k <= r {
        0
    } else {
        k - r
    }
}

/// The highest coefficient index that has a term in the step `k` of the basis
/// function `r`; for `k == 0` the one index, 0, that holds the start value.
pub open spec fn highest_term(p: int, r: int, k: int) -> int {
    if r + k <= p {
        k
    } else {
        p - r
    }
}

/// The step `k` of the basis function `r` computes the coefficient `j`; step
/// 0 stands for the start value, the coefficient 0.
pub open spec fn is_written(p: int, r: int, k: int, j: int) -> bool {
    lowest_term(r, k) <= j <= highest_term(p, r, k)
}

/// Gives the terms of the step of the derivative recurrence for the basis
/// function `r` of degree `p` and the derivative order `k`: whether it has
/// the terms with the coefficient indices 0 and `k`, and the indices
/// `first..end` of its inner terms.
///
/// It is refused with `Index` where `r` is above `p` or `k` is not in `1..=p`.
pub fn derivative_window(p: usize, r: usize, k: usize) -> (w: Result<DerivativeWindow, EvalError>)
    ensures
        w is Ok <==> step_in_range(p as int, r as int, k as int),
        w is Err ==> w == Err::<DerivativeWindow, EvalError>(EvalError::Index),
        w matches Ok(window) ==> {
            &&& window.leading == has_leading_term(r as int, k as int)
            &&& window.first == window_first(r as int, k as int)
            &&& window.end == window_last(p as int, r as int, k as int) + 1
            &&& window.trailing == has_trailing_term(p as int, r as int, k as int)
        },
{
    if r > p || k == 0 || k > p {
        return Err(EvalError::Index);
    }
    let first: usize = if k - 1 > r {
        k - r
    } else {
        1
    };
    let last: usize = if p - r < k - 1 {
        p - r
    } else {
        k - 1
    };
    Ok(DerivativeWindow { leading: k <= r, first, end: last + 1, trailing: k <= p - r })
}

/// Every term of a step stays inside the table: its knot difference lies in
/// the lower triangle, below the diagonal, and its basis function value in
/// the upper triangle, in the column of degree `p - k`.
pub proof fn lemma_terms_stay_in_table(p: int, r: int, k: int, j: int)
    requires
        step_in_range(p, r, k),
        is_term(p, r, k, j),
    ensures
        0 <= j <= k,
        0 <= r - k + j <= p - k,
        r - k + j < p - k + 1 <= p,
{
}

/// The terms of a step are those whose coefficient indices the step writes,
/// a range without gaps that is never empty.
pub proof fn lemma_terms_are_contiguous(p: int, r: int, k: int, j: int)
    requires
        step_in_range(p, r, k),
    ensures
        is_term(p, r, k, j) <==> is_written(p, r, k, j),
        lowest_term(r, k) <= highest_term(p, r, k),
{
}

/// A step reads the other buffer only where the step before wrote it. The
/// term 0 reads the coefficient 0 of the step before, an inner term `j` the
/// coefficients `j - 1` and `j`, and the term `k` the coefficient `k - 1`.
pub proof fn lemma_reads_follow_writes(p: int, r: int, k: int, j: int)
    requires
        step_in_range(p, r, k),
    ensures
        has_leading_term(r, k) ==> is_written(p, r, k - 1, 0),
        is_inner_term(p, r, k, j) ==> is_written(p, r, k - 1, j - 1) && is_written(p, r, k - 1, j),
        has_trailing_term(p, r, k) ==> is_written(p, r, k - 1, k - 1),
{
}

} // verus!
