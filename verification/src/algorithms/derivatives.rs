//! The basis functions that do not vanish on one knot span, with their
//! derivatives.

use vstd::prelude::*;
use vstd::std_specs::ops::{AddSpec, SubSpec, MulSpec, NegSpec};
use core::ops::Neg;
use crate::error::EvalError;
use crate::scalar::{Scalar, total, faithful, zero, one, whole, ratio, from_whole, divide, filled};
use crate::algorithms::basis_function::{window_fits, support, share, rising, basis_value};
use crate::algorithms::derivative_window::{
    derivative_window,
    step_in_range,
    has_leading_term,
    has_trailing_term,
    is_written,
    window_first,
    window_last,
    lemma_terms_stay_in_table,
    lemma_terms_are_contiguous,
    lemma_reads_follow_writes,
};

verus! {

/// The value of the basis function number `r` among those of degree `j` that
/// do not vanish on the span: the cell in row `r` and column `j` of the upper
/// triangle of the table.
pub open spec fn level_value<T: Scalar>(knots: Seq<T>, span: int, u: T, j: int, r: int) -> T {
    basis_value(knots, span, u, span - j + r, j as nat)
}

/// The length of the support that the step from degree `j - 1` to degree `j`
/// divides by for the function number `r`: the cell in row `j` and column `r`
/// of the lower triangle of the table.
pub open spec fn level_gap<T: Scalar>(knots: Seq<T>, span: int, u: T, j: int, r: int) -> T {
    support(knots, u, span - j + r + 1, j)
}

/// The coefficient `j` of the derivative of order `k` of the basis function
/// number `r` of degree `p`. The derivative is the sum of the basis functions
/// of degree `p - k` with these coefficients, times a factor.
///
/// The one coefficient of order 0 is one. A coefficient of order `k` is the
/// difference of the coefficients `j` and `j - 1` of order `k - 1`, of which
/// the first term has only the former and the last term only the latter,
/// divided by a support of degree `p - k + 1`.
pub open spec fn coefficient<T: Scalar>(knots: Seq<T>, span: int, u: T, p: int, r: int, k: int, j: int) -> T
    decreases k,
{
    if k <= 0 {
        if j == 0 {
            one::<T>()
        } else {
            zero::<T>()
        }
    } else if j == 0 {
        ratio(coefficient(knots, span, u, p, r, k - 1, 0), level_gap(knots, span, u, p - k + 1, r - k))
    } else if j == k {
        ratio(
            coefficient(knots, span, u, p, r, k - 1, k - 1).neg_spec(),
            level_gap(knots, span, u, p - k + 1, r),
        )
    } else {
        ratio(
            coefficient(knots, span, u, p, r, k - 1, j).sub_spec(
                coefficient(knots, span, u, p, r, k - 1, j - 1),
            ),
            level_gap(knots, span, u, p - k + 1, r - k + j),
        )
    }
}

/// The term `j` of the derivative of order `k` of the basis function number
/// `r`: its coefficient times the basis function number `r - k + j` of degree
/// `p - k`.
pub open spec fn term<T: Scalar>(knots: Seq<T>, span: int, u: T, p: int, r: int, k: int, j: int) -> T {
    coefficient(knots, span, u, p, r, k, j).mul_spec(level_value(knots, span, u, p - k, r - k + j))
}

/// The sum of the first term, where the step has it, and of the inner terms
/// below `upto`, added in the order of their indices.
pub open spec fn inner_sum<T: Scalar>(knots: Seq<T>, span: int, u: T, p: int, r: int, k: int, upto: int) -> T
    decreases upto,
{
    if upto <= window_first(r, k) {
        if has_leading_term(r, k) {
            term(knots, span, u, p, r, k, 0)
        } else {
            zero::<T>()
        }
    } else {
        inner_sum(knots, span, u, p, r, k, upto - 1).add_spec(term(knots, span, u, p, r, k, upto - 1))
    }
}

/// The sum of all terms of the derivative of order `k` of the basis function
/// number `r`, before the factor.
pub open spec fn term_sum<T: Scalar>(knots: Seq<T>, span: int, u: T, p: int, r: int, k: int) -> T {
    let inner = inner_sum(knots, span, u, p, r, k, window_last(p, r, k) + 1);
    if has_trailing_term(p, r, k) {
        inner.add_spec(term(knots, span, u, p, r, k, k))
    } else {
        inner
    }
}

/// The factor of the derivatives of order `k`: the product
/// `p (p - 1) ... (p - k + 1)`, formed in the scalar type from the left.
pub open spec fn factor<T: Scalar>(p: int, k: int) -> T
    decreases k,
{
    if k <= 1 {
        whole::<T>(p as u32)
    } else {
        factor::<T>(p, k - 1).mul_spec(whole::<T>((p - k + 1) as u32))
    }
}

/// The derivative of order `k` at `u` of the basis function number `r` among
/// those of degree `p` that do not vanish on the span; for `k == 0` the
/// function itself.
pub open spec fn derivative_value<T: Scalar>(knots: Seq<T>, span: int, u: T, p: int, r: int, k: int) -> T {
    if k <= 0 {
        level_value(knots, span, u, p, r)
    } else {
        term_sum(knots, span, u, p, r, k).mul_spec(factor::<T>(p, k))
    }
}

/// The cell `r` of the row `j` of a table.
pub open spec fn cell<T>(table: Seq<Vec<T>>, j: int, r: int) -> T {
    table[j]@[r]
}

/// The rows of a table have the lengths `first`, `first + 1`, and so on.
pub open spec fn is_triangle<T>(table: Seq<Vec<T>>, first: int) -> bool {
    forall|j: int| 0 <= j < table.len() ==> (#[trigger] table[j])@.len() == first + j
}

/// The table holds the basis function values of the degrees below its length.
pub open spec fn holds_values<T: Scalar>(table: Seq<Vec<T>>, knots: Seq<T>, span: int, u: T) -> bool {
    forall|j: int, r: int|
        0 <= r <= j < table.len() ==> #[trigger] cell(table, j, r) == level_value(knots, span, u, j, r)
}

/// The table holds the support lengths of the degrees below its length.
pub open spec fn holds_gaps<T: Scalar>(table: Seq<Vec<T>>, knots: Seq<T>, span: int, u: T) -> bool {
    forall|j: int, r: int|
        0 <= r < j < table.len() ==> #[trigger] cell(table, j, r) == level_gap(knots, span, u, j, r)
}

/// Builds both triangles of the table for the degrees up to `p`: the basis
/// function values, one row for each degree, and the support lengths that the
/// step to each degree divides by.
fn basis_table<T: Scalar>(span: usize, u: T, p: usize, knots: &Vec<T>) -> (t: (Vec<Vec<T>>, Vec<Vec<T>>))
    requires
        total::<T>(),
        window_fits(span as int, p as int, knots@.len() as int),
    ensures
        t.0@.len() == p + 1,
        t.1@.len() == p + 1,
        is_triangle(t.0@, 1),
        is_triangle(t.1@, 0),
        faithful::<T>() ==> holds_values(t.0@, knots@, span as int, u),
        faithful::<T>() ==> holds_gaps(t.1@, knots@, span as int, u),
{
    let count = knots.len();
    let nothing: T = from_whole(0);
    let mut values: Vec<Vec<T>> = Vec::new();
    let mut gaps: Vec<Vec<T>> = Vec::new();
    let mut first: Vec<T> = Vec::new();
    first.push(from_whole(1));
    values.push(first);
    gaps.push(Vec::new());
    let mut left: Vec<T> = filled(p + 1, nothing);
    let mut right: Vec<T> = filled(p + 1, nothing);
    let mut j: usize = 1;
    while j <= p
        invariant
            total::<T>(),
            1 <= j <= p + 1,
            count == knots@.len(),
            window_fits(span as int, p as int, knots@.len() as int),
            values@.len() == j,
            gaps@.len() == j,
            is_triangle(values@, 1),
            is_triangle(gaps@, 0),
            left@.len() == p + 1,
            right@.len() == p + 1,
            faithful::<T>() ==> nothing == zero::<T>(),
            faithful::<T>() ==> forall|t: int|
                1 <= t < j ==> #[trigger] left@[t] == u.sub_spec(knots@[span + 1 - t]),
            faithful::<T>() ==> forall|t: int|
                1 <= t < j ==> #[trigger] right@[t] == knots@[span + t].sub_spec(u),
            faithful::<T>() ==> holds_values(values@, knots@, span as int, u),
            faithful::<T>() ==> holds_gaps(gaps@, knots@, span as int, u),
        decreases p + 1 - j,
    {
        left[j] = u - knots[span - (j - 1)];
        right[j] = knots[span + j] - u;
        let mut level: Vec<T> = Vec::new();
        let mut lengths: Vec<T> = Vec::new();
        let mut saved: T = nothing;
        let mut r: usize = 0;
        while r < j
            invariant
                total::<T>(),
                0 <= r <= j <= p,
                count == knots@.len(),
                window_fits(span as int, p as int, knots@.len() as int),
                values@.len() == j,
                is_triangle(values@, 1),
                level@.len() == r,
                lengths@.len() == r,
                left@.len() == p + 1,
                right@.len() == p + 1,
                faithful::<T>() ==> nothing == zero::<T>(),
                faithful::<T>() ==> forall|t: int|
                    1 <= t <= j ==> #[trigger] left@[t] == u.sub_spec(knots@[span + 1 - t]),
                faithful::<T>() ==> forall|t: int|
                    1 <= t <= j ==> #[trigger] right@[t] == knots@[span + t].sub_spec(u),
                faithful::<T>() ==> holds_values(values@, knots@, span as int, u),
                faithful::<T>() ==> forall|i: int|
                    0 <= i < r ==> #[trigger] level@[i] == level_value(knots@, span as int, u, j as int, i),
                faithful::<T>() ==> forall|i: int|
                    0 <= i < r ==> #[trigger] lengths@[i] == level_gap(knots@, span as int, u, j as int, i),
                faithful::<T>() ==> saved == if r == 0 {
                    zero::<T>()
                } else {
                    rising(knots@, span as int, u, span - j + r, j as nat)
                },
            decreases j - r,
        {
            let length: T = right[r + 1] + left[j - r];
            let temp: T = divide(values[j - 1][r], length);
            proof {
                if faithful::<T>() {
                    assert(cell(values@, j - 1, r as int) == level_value(
                        knots@,
                        span as int,
                        u,
                        j - 1,
                        r as int,
                    ));
                    assert(length == level_gap(knots@, span as int, u, j as int, r as int));
                    assert(temp == share(knots@, span as int, u, span - j + r + 1, j as nat));
                }
            }
            lengths.push(length);
            level.push(saved + right[r + 1] * temp);
            saved = left[j - r] * temp;
            r += 1;
        }
        level.push(saved);
        let ghost old_values = values@;
        let ghost old_gaps = gaps@;
        values.push(level);
        gaps.push(lengths);
        proof {
            assert forall|a: int| 0 <= a < values@.len() implies (#[trigger] values@[a])@.len() == 1 + a by {
                if a < j {
                    assert(values@[a] == old_values[a]);
                }
            }
            assert forall|a: int| 0 <= a < gaps@.len() implies (#[trigger] gaps@[a])@.len() == 0 + a by {
                if a < j {
                    assert(gaps@[a] == old_gaps[a]);
                }
            }
            if faithful::<T>() {
                assert forall|a: int, b: int| 0 <= b <= a < values@.len() implies #[trigger] cell(values@, a, b)
                    == level_value(knots@, span as int, u, a, b) by {
                    if a < j {
                        assert(cell(values@, a, b) == cell(old_values, a, b));
                    }
                }
                assert forall|a: int, b: int| 0 <= b < a < gaps@.len() implies #[trigger] cell(gaps@, a, b)
                    == level_gap(knots@, span as int, u, a, b) by {
                    if a < j {
                        assert(cell(gaps@, a, b) == cell(old_gaps, a, b));
                    }
                }
            }
        }
        j += 1;
    }
    (values, gaps)
}

/// The arguments of an evaluation with derivatives fit one another: the
/// highest order is at most the degree, degree and span fit the knots, and
/// the degree converts into the scalar type where a factor is formed from
/// it.
pub open spec fn derivative_table_fits(span: int, p: int, n: int, knot_count: int) -> bool {
    n <= p && window_fits(span, p, knot_count) && (n >= 1 ==> p <= u32::MAX)
}

/// The buffer holds the coefficients of the order `k` of the basis function
/// number `r` wherever the step `k` writes them.
pub open spec fn holds_coefficients<T: Scalar>(
    buffer: Seq<T>,
    knots: Seq<T>,
    span: int,
    u: T,
    p: int,
    r: int,
    k: int,
) -> bool {
    forall|j: int|
        is_written(p, r, k, j) ==> #[trigger] buffer[j] == coefficient(knots, span, u, p, r, k, j)
}

/// Computes, for the basis function number `r`, the sums of terms of the
/// derivatives of the orders `1..=n`, before their factors.
fn derivative_sums<T: Scalar>(
    span: usize,
    u: T,
    p: usize,
    n: usize,
    r: usize,
    knots: &Vec<T>,
    values: &Vec<Vec<T>>,
    gaps: &Vec<Vec<T>>,
) -> (sums: Result<Vec<T>, EvalError>)
    requires
        total::<T>(),
        n <= p,
        r <= p,
        p < usize::MAX,
        values@.len() == p + 1,
        gaps@.len() == p + 1,
        is_triangle(values@, 1),
        is_triangle(gaps@, 0),
        faithful::<T>() ==> holds_values(values@, knots@, span as int, u),
        faithful::<T>() ==> holds_gaps(gaps@, knots@, span as int, u),
    ensures
        sums matches Ok(column) && column@.len() == n,
        faithful::<T>() ==> forall|i: int|
            0 <= i < n ==> #[trigger] sums->Ok_0@[i] == term_sum(
                knots@,
                span as int,
                u,
                p as int,
                r as int,
                i + 1,
            ),
{
    let nothing: T = from_whole(0);
    let mut previous: Vec<T> = filled(p + 1, nothing);
    let mut current: Vec<T> = filled(p + 1, nothing);
    previous[0] = from_whole(1);
    let mut column: Vec<T> = Vec::new();
    let mut k: usize = 1;
    while k <= n
        invariant
            total::<T>(),
            1 <= k <= n + 1,
            n <= p,
            r <= p,
            p < usize::MAX,
            values@.len() == p + 1,
            gaps@.len() == p + 1,
            is_triangle(values@, 1),
            is_triangle(gaps@, 0),
            previous@.len() == p + 1,
            current@.len() == p + 1,
            column@.len() == k - 1,
            faithful::<T>() ==> nothing == zero::<T>(),
            faithful::<T>() ==> holds_values(values@, knots@, span as int, u),
            faithful::<T>() ==> holds_gaps(gaps@, knots@, span as int, u),
            faithful::<T>() ==> holds_coefficients(previous@, knots@, span as int, u, p as int, r as int, k - 1),
            faithful::<T>() ==> forall|i: int|
                0 <= i < k - 1 ==> #[trigger] column@[i] == term_sum(
                    knots@,
                    span as int,
                    u,
                    p as int,
                    r as int,
                    i + 1,
                ),
        decreases n + 1 - k,
    {
        let window = match derivative_window(p, r, k) {
            Ok(window) => window,
            Err(e) => {
                return Err(e);
            },
        };
        let pk: usize = p - k;
        let mut d: T = nothing;
        proof {
            lemma_reads_follow_writes(p as int, r as int, k as int, 0);
        }
        if window.leading {
            let rk: usize = r - k;
            current[0] = divide(previous[0], gaps[pk + 1][rk]);
            d = current[0] * values[pk][rk];
            proof {
                if faithful::<T>() {
                    assert(cell(gaps@, pk + 1, rk as int) == level_gap(knots@, span as int, u, pk + 1, rk as int));
                    assert(cell(values@, pk as int, rk as int) == level_value(
                        knots@,
                        span as int,
                        u,
                        pk as int,
                        rk as int,
                    ));
                }
            }
        }
        let mut j: usize = window.first;
        while j < window.end
            invariant
                total::<T>(),
                step_in_range(p as int, r as int, k as int),
                p < usize::MAX,
                pk == p - k,
                window.first == window_first(r as int, k as int),
                window.end == window_last(p as int, r as int, k as int) + 1,
                window.leading == has_leading_term(r as int, k as int),
                window.first <= j,
                j <= window.end || window.end < window.first,
                values@.len() == p + 1,
                gaps@.len() == p + 1,
                is_triangle(values@, 1),
                is_triangle(gaps@, 0),
                previous@.len() == p + 1,
                current@.len() == p + 1,
                faithful::<T>() ==> holds_values(values@, knots@, span as int, u),
                faithful::<T>() ==> holds_gaps(gaps@, knots@, span as int, u),
                faithful::<T>() ==> holds_coefficients(
                    previous@,
                    knots@,
                    span as int,
                    u,
                    p as int,
                    r as int,
                    k - 1,
                ),
                faithful::<T>() && window.leading ==> current@[0] == coefficient(
                    knots@,
                    span as int,
                    u,
                    p as int,
                    r as int,
                    k as int,
                    0,
                ),
                faithful::<T>() ==> forall|i: int|
                    window.first <= i < j ==> #[trigger] current@[i] == coefficient(
                        knots@,
                        span as int,
                        u,
                        p as int,
                        r as int,
                        k as int,
                        i,
                    ),
                faithful::<T>() ==> d == inner_sum(knots@, span as int, u, p as int, r as int, k as int, j as int),
            decreases window.end - j,
        {
            proof {
                lemma_terms_stay_in_table(p as int, r as int, k as int, j as int);
                lemma_reads_follow_writes(p as int, r as int, k as int, j as int);
            }
            let c: usize = r + j - k;
            let next: T = divide(previous[j] - previous[j - 1], gaps[pk + 1][c]);
            let ghost before = current@;
            current[j] = next;
            d = d + next * values[pk][c];
            proof {
                if faithful::<T>() {
                    assert(cell(gaps@, pk + 1, c as int) == level_gap(knots@, span as int, u, pk + 1, c as int));
                    assert(cell(values@, pk as int, c as int) == level_value(
                        knots@,
                        span as int,
                        u,
                        pk as int,
                        c as int,
                    ));
                    assert(next == coefficient(knots@, span as int, u, p as int, r as int, k as int, j as int));
                    assert forall|i: int| window.first <= i < j + 1 implies #[trigger] current@[i] == coefficient(
                        knots@,
                        span as int,
                        u,
                        p as int,
                        r as int,
                        k as int,
                        i,
                    ) by {
                        if i < j {
                            assert(current@[i] == before[i]);
                        }
                    }
                }
            }
            j += 1;
        }
        if window.trailing {
            proof {
                lemma_terms_stay_in_table(p as int, r as int, k as int, k as int);
            }
            let last: T = divide(previous[k - 1].neg(), gaps[pk + 1][r]);
            let ghost before = current@;
            current[k] = last;
            d = d + last * values[pk][r];
            proof {
                if faithful::<T>() {
                    assert(cell(gaps@, pk + 1, r as int) == level_gap(knots@, span as int, u, pk + 1, r as int));
                    assert(cell(values@, pk as int, r as int) == level_value(
                        knots@,
                        span as int,
                        u,
                        pk as int,
                        r as int,
                    ));
                    assert forall|i: int| window.first <= i < window.end implies #[trigger] current@[i]
                        == before[i] by {}
                }
            }
        }
        proof {
            if faithful::<T>() {
                assert(d == term_sum(knots@, span as int, u, p as int, r as int, k as int));
                assert forall|i: int| is_written(p as int, r as int, k as int, i) implies #[trigger] current@[i]
                    == coefficient(knots@, span as int, u, p as int, r as int, k as int, i) by {
                    lemma_terms_are_contiguous(p as int, r as int, k as int, i);
                }
            }
        }
        column.push(d);
        core::mem::swap(&mut previous, &mut current);
        k += 1;
    }
    Ok(column)
}

/// The table has the rows `0..=n` with the cells `0..=p`.
pub open spec fn has_shape<T>(table: Seq<Vec<T>>, p: int, n: int) -> bool {
    &&& table.len() == n + 1
    &&& forall|k: int| 0 <= k <= n ==> (#[trigger] table[k])@.len() == p + 1
}

/// The cell `r` of the row `k` of the table is the derivative of order `k` of
/// the basis function number `r`, for the rows below `rows`.
pub open spec fn holds_derivatives<T: Scalar>(
    table: Seq<Vec<T>>,
    knots: Seq<T>,
    span: int,
    u: T,
    p: int,
    rows: int,
) -> bool {
    forall|k: int, r: int|
        0 <= k < rows && 0 <= r <= p ==> #[trigger] cell(table, k, r) == derivative_value(
            knots,
            span,
            u,
            p,
            r,
            k,
        )
}

/// Computes the basis functions of degree `p` that do not vanish on `span`
/// and their derivatives up to the order `n`, at the parameter `u`. The row
/// `k` of the result holds the derivatives of order `k`, the row 0 the
/// functions themselves; the cell `r` of a row belongs to the basis function
/// `span - p + r`.
///
/// The basis functions of all degrees up to `p` and the support lengths are
/// tabulated first. The derivative of order `k` of a function is a sum of
/// functions of degree `p - k`; the coefficients of the sum for one order are
/// computed from those of the order before, which are kept in the other one
/// of two buffers. The sums of order `k` are then multiplied by
/// `p (p - 1) ... (p - k + 1)`.
///
/// The call is refused with `Index` where `n` exceeds `p`, the span is below
/// the degree, the knot `span + p` does not exist, or derivatives are asked
/// for and the degree is too large to convert into the scalar type.
pub fn calculate_basis_functions_and_derivatives<T: Scalar>(
    span: usize,
    u: T,
    p: usize,
    n: usize,
    knots: Vec<T>,
) -> (result: Result<Vec<Vec<T>>, EvalError>)
    requires
        total::<T>(),
    ensures
        result is Ok <==> derivative_table_fits(span as int, p as int, n as int, knots@.len() as int),
        result is Err ==> result == Err::<Vec<Vec<T>>, EvalError>(EvalError::Index),
        result matches Ok(table) ==> {
            &&& has_shape(table@, p as int, n as int)
            &&& faithful::<T>() ==> holds_derivatives(table@, knots@, span as int, u, p as int, n + 1)
        },
{
    if n > p || p > span || span >= knots.len() || p >= knots.len() - span {
        return Err(EvalError::Index);
    }
    if n >= 1 && p > u32::MAX as usize {
        return Err(EvalError::Index);
    }
    let (values, gaps) = basis_table(span, u, p, &knots);
    let mut columns: Vec<Vec<T>> = Vec::new();
    let mut r: usize = 0;
    while r <= p
        invariant
            total::<T>(),
            0 <= r <= p + 1,
            n <= p,
            p < usize::MAX,
            values@.len() == p + 1,
            gaps@.len() == p + 1,
            is_triangle(values@, 1),
            is_triangle(gaps@, 0),
            faithful::<T>() ==> holds_values(values@, knots@, span as int, u),
            faithful::<T>() ==> holds_gaps(gaps@, knots@, span as int, u),
            columns@.len() == r,
            forall|i: int| 0 <= i < r ==> (#[trigger] columns@[i])@.len() == n,
            faithful::<T>() ==> forall|i: int, k: int|
                0 <= i < r && 0 <= k < n ==> #[trigger] cell(columns@, i, k) == term_sum(
                    knots@,
                    span as int,
                    u,
                    p as int,
                    i,
                    k + 1,
                ),
        decreases p + 1 - r,
    {
        let column = match derivative_sums(span, u, p, n, r, &knots, &values, &gaps) {
            Ok(column) => column,
            Err(e) => {
                return Err(e);
            },
        };
        let ghost before = columns@;
        columns.push(column);
        proof {
            assert forall|i: int| 0 <= i < r + 1 implies (#[trigger] columns@[i])@.len() == n by {
                if i < r {
                    assert(columns@[i] == before[i]);
                }
            }
            if faithful::<T>() {
                assert forall|i: int, k: int| 0 <= i < r + 1 && 0 <= k < n implies #[trigger] cell(
                    columns@,
                    i,
                    k,
                ) == term_sum(knots@, span as int, u, p as int, i, k + 1) by {
                    if i < r {
                        assert(cell(columns@, i, k) == cell(before, i, k));
                    } else {
                        assert(cell(columns@, i, k) == column@[k]);
                    }
                }
            }
        }
        r += 1;
    }
    let mut table: Vec<Vec<T>> = Vec::new();
    let mut row: Vec<T> = Vec::new();
    let mut r: usize = 0;
    while r <= p
        invariant
            0 <= r <= p + 1,
            p < usize::MAX,
            values@.len() == p + 1,
            values@[p as int]@.len() == p + 1,
            row@.len() == r,
            forall|i: int| 0 <= i < r ==> #[trigger] row@[i] == cell(values@, p as int, i),
        decreases p + 1 - r,
    {
        row.push(values[p][r]);
        r += 1;
    }
    table.push(row);
    proof {
        if faithful::<T>() {
            assert forall|k: int, i: int| 0 <= k < 1 && 0 <= i <= p implies #[trigger] cell(table@, k, i)
                == derivative_value(knots@, span as int, u, p as int, i, k) by {
                assert(cell(table@, 0, i) == cell(values@, p as int, i));
            }
        }
    }
    let mut scale: T = if n >= 1 {
        from_whole(p as u32)
    } else {
        from_whole(0)
    };
    let mut k: usize = 1;
    while k <= n
        invariant
            total::<T>(),
            1 <= k <= n + 1,
            n <= p,
            n >= 1 ==> p <= u32::MAX,
            p < usize::MAX,
            columns@.len() == p + 1,
            forall|i: int| 0 <= i <= p ==> (#[trigger] columns@[i])@.len() == n,
            faithful::<T>() ==> forall|i: int, m: int|
                0 <= i <= p && 0 <= m < n ==> #[trigger] cell(columns@, i, m) == term_sum(
                    knots@,
                    span as int,
                    u,
                    p as int,
                    i,
                    m + 1,
                ),
            table@.len() == k,
            forall|m: int| 0 <= m < k ==> (#[trigger] table@[m])@.len() == p + 1,
            faithful::<T>() ==> holds_derivatives(table@, knots@, span as int, u, p as int, k as int),
            faithful::<T>() && k <= n ==> scale == factor::<T>(p as int, k as int),
        decreases n + 1 - k,
    {
        let mut row: Vec<T> = Vec::new();
        let mut r: usize = 0;
        while r <= p
            invariant
                total::<T>(),
                0 <= r <= p + 1,
                1 <= k <= n,
                p < usize::MAX,
                columns@.len() == p + 1,
                forall|i: int| 0 <= i <= p ==> (#[trigger] columns@[i])@.len() == n,
                row@.len() == r,
                faithful::<T>() ==> forall|i: int|
                    0 <= i < r ==> #[trigger] row@[i] == cell(columns@, i, k - 1).mul_spec(scale),
            decreases p + 1 - r,
        {
            row.push(columns[r][k - 1] * scale);
            r += 1;
        }
        let ghost before = table@;
        table.push(row);
        proof {
            assert forall|m: int| 0 <= m < k + 1 implies (#[trigger] table@[m])@.len() == p + 1 by {
                if m < k {
                    assert(table@[m] == before[m]);
                }
            }
            if faithful::<T>() {
                assert forall|m: int, i: int| 0 <= m < k + 1 && 0 <= i <= p implies #[trigger] cell(
                    table@,
                    m,
                    i,
                ) == derivative_value(knots@, span as int, u, p as int, i, m) by {
                    if m < k {
                        assert(cell(table@, m, i) == cell(before, m, i));
                    } else {
                        assert(cell(table@, m, i) == row@[i]);
                        assert(cell(columns@, i, k - 1) == term_sum(
                            knots@,
                            span as int,
                            u,
                            p as int,
                            i,
                            k as int,
                        ));
                    }
                }
            }
        }
        if k < n {
            scale = scale * from_whole((p - k) as u32);
        }
        k += 1;
    }
    Ok(table)
}

} // verus!
