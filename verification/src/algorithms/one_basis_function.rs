//! One basis function alone, without the table of its neighbours.
//!
//! The work is done in two steps. [`start_one_basis_function`] orders the
//! parameter among the knots and so decides the cases in which the value is
//! one or zero without more ado, or else which of the functions of degree 0
//! under the support is the one that does not vanish.
//! [`calculate_one_basis_function`] blends that start up to the degree `p`.

use vstd::prelude::*;
use vstd::std_specs::ops::{AddSpec, SubSpec, MulSpec};
use crate::binary64::Binary64;
use crate::error::EvalError;
use crate::scalar::{Scalar, total, faithful, zero, one, is_zero, ratio, from_whole, divide};
use crate::field::{
    field_laws,
    lemma_zero_is_neutral,
    lemma_zero_is_zero,
    lemma_share_of_zero,
    lemma_ratio_of_product,
    lemma_distances_add_up,
};
use crate::algorithms::basis_function::{support, rising, falling, basis_value};
use crate::algorithms::knot_span::{valid_knots, knots_are_valid};

verus! {

/// How the evaluation of one basis function starts.
#[derive(Clone, Debug)]
pub enum BasisStart {
    /// The value is one: the parameter lies on the end of the domain at
    /// which the function is the only one that does not vanish.
    One,
    /// The value is zero: the parameter lies outside the support.
    Zero,
    /// The parameter lies in the support. The entry `j` tells whether it lies
    /// in the knot interval `j` of the support, its left end included.
    Table(Vec<bool>),
}

/// The arguments fit one another: `m` is the index of an existing knot and
/// the basis function `span` of degree `p` is one of the `m - p` functions
/// on the knots up to `m`.
pub open spec fn one_basis_indices_fit(p: int, m: int, knot_count: int, span: int) -> bool {
    m < knot_count && span + p + 1 <= m
}

/// The parameter lies on an end of the domain, and the function is the first
/// one at the left end, the last one at the right end.
pub open spec fn on_own_end(p: int, m: int, knots: Seq<Binary64>, span: int, u: Binary64) -> bool {
    ||| span == 0 && u.value() == knots[0].value()
    ||| span == m - p - 1 && u.value() == knots[m].value()
}

/// The parameter lies outside the support of the function, which reaches
/// from the knot `span` to the knot `span + p + 1`, the left one included.
pub open spec fn outside_support(p: int, knots: Seq<Binary64>, span: int, u: Binary64) -> bool {
    u.value() < knots[span].value() || u.value() >= knots[span + p + 1].value()
}

/// The parameter lies in the knot interval `j` of the support, the left end
/// included: there the function `span + j` of degree 0 is one.
pub open spec fn in_interval(knots: Seq<Binary64>, span: int, u: Binary64, j: int) -> bool {
    knots[span + j].value() <= u.value() < knots[span + j + 1].value()
}

/// The table marks the knot intervals of the support that hold the parameter.
pub open spec fn marks_intervals(table: Seq<bool>, p: int, knots: Seq<Binary64>, span: int, u: Binary64) -> bool {
    &&& table.len() == p + 1
    &&& forall|j: int| 0 <= j <= p ==> #[trigger] table[j] == in_interval(knots, span, u, j)
}

/// Decides how the evaluation at `u` of the basis function `span` of degree
/// `p` starts, where `m` is the index of the last knot.
///
/// The call is refused with `Index` where the knot `m` does not exist or the
/// support of the function reaches beyond it, and else with `Domain` where
/// the knots are no knot vector or `u` is no real number.
pub fn start_one_basis_function(p: usize, m: usize, knots: &Vec<Binary64>, span: usize, u: Binary64) -> (r:
    Result<BasisStart, EvalError>)
    ensures
        r is Ok <==> one_basis_indices_fit(p as int, m as int, knots@.len() as int, span as int) && valid_knots(
            knots@,
        ) && u.finite(),
        r == Err::<BasisStart, EvalError>(EvalError::Index) <==> !one_basis_indices_fit(
            p as int,
            m as int,
            knots@.len() as int,
            span as int,
        ),
        r == Err::<BasisStart, EvalError>(EvalError::Domain) <==> one_basis_indices_fit(
            p as int,
            m as int,
            knots@.len() as int,
            span as int,
        ) && !(valid_knots(knots@) && u.finite()),
        r matches Ok(start) ==> {
            &&& start is One <==> on_own_end(p as int, m as int, knots@, span as int, u)
            &&& start is Zero <==> !on_own_end(p as int, m as int, knots@, span as int, u) && outside_support(
                p as int,
                knots@,
                span as int,
                u,
            )
            &&& start matches BasisStart::Table(table) ==> marks_intervals(
                table@,
                p as int,
                knots@,
                span as int,
                u,
            )
        },
{
    if m >= knots.len() || p >= m || span >= m - p {
        return Err(EvalError::Index);
    }
    if !knots_are_valid(knots) || !u.is_finite() {
        return Err(EvalError::Domain);
    }
    if (span == 0 && u.same_value(&knots[0])) || (span == m - p - 1 && u.same_value(&knots[m])) {
        return Ok(BasisStart::One);
    }
    if u.lt(&knots[span]) || !u.lt(&knots[span + p + 1]) {
        return Ok(BasisStart::Zero);
    }
    let mut table: Vec<bool> = Vec::new();
    let mut j: usize = 0;
    while j <= p
        invariant
            0 <= j <= p + 1,
            span + p + 1 <= m < knots@.len(),
            valid_knots(knots@),
            u.finite(),
            table@.len() == j,
            forall|i: int| 0 <= i < j ==> #[trigger] table@[i] == in_interval(knots@, span as int, u, i),
        decreases p + 1 - j,
    {
        table.push(knots[span + j].le(&u) && u.lt(&knots[span + j + 1]));
        j += 1;
    }
    Ok(BasisStart::Table(table))
}

/// In the support of a basis function exactly one function of degree 0 does
/// not vanish: a parameter of the support lies in exactly one of its knot
/// intervals.
pub proof fn lemma_one_interval_holds_parameter(p: int, knots: Seq<Binary64>, span: int, u: Binary64)
    requires
        0 <= p,
        0 <= span,
        span + p + 1 < knots.len(),
        valid_knots(knots),
        !outside_support(p, knots, span, u),
    ensures
        exists|j: int| 0 <= j <= p && in_interval(knots, span, u, j),
        forall|i: int, j: int|
            0 <= i <= p && 0 <= j <= p && in_interval(knots, span, u, i) && in_interval(knots, span, u, j)
                ==> i == j,
    decreases p,
{
    if in_interval(knots, span, u, p) {
    } else {
        assert(knots[span + p].value() <= knots[span + p + 1].value());
        assert(p > 0) by {
            if p == 0 {
                assert(in_interval(knots, span, u, 0));
            }
        }
        assert(!outside_support(p - 1, knots, span, u));
        lemma_one_interval_holds_parameter(p - 1, knots, span, u);
        let j = choose|j: int| 0 <= j <= p - 1 && in_interval(knots, span, u, j);
        assert(0 <= j <= p && in_interval(knots, span, u, j));
    }
    assert forall|i: int, j: int|
        0 <= i <= p && 0 <= j <= p && in_interval(knots, span, u, i) && in_interval(
            knots,
            span,
            u,
            j,
        ) implies i == j by {
        if i < j {
            assert(knots[span + i + 1].value() <= knots[span + j].value());
        }
        if j < i {
            assert(knots[span + j + 1].value() <= knots[span + i].value());
        }
    }
}

/// The length of the interval from `knots[i]` to `knots[i + k]`.
pub open spec fn reach<T: Scalar>(knots: Seq<T>, i: int, k: int) -> T {
    knots[i + k].sub_spec(knots[i])
}

/// The part of the function `i` of degree `k` that rises over the support of
/// the function `i` of degree `k - 1`, whose value is `below`.
///
/// A function that vanishes contributes nothing. For the first function of
/// the support the product with the distance is divided by the length; for
/// the others the quotient by the length is multiplied with the distance.
pub open spec fn rising_part<T: Scalar>(knots: Seq<T>, span: int, u: T, j: int, k: int, below: T) -> T {
    if is_zero(below) {
        zero::<T>()
    } else if j == 0 {
        ratio(u.sub_spec(knots[span]).mul_spec(below), reach(knots, span, k))
    } else {
        u.sub_spec(knots[span + j]).mul_spec(ratio(below, reach(knots, span + j, k)))
    }
}

/// The value at `u` of the function `span + j` of degree `k`, blended from
/// the functions of degree 0 that `start` gives.
pub open spec fn blended<T: Scalar>(knots: Seq<T>, span: int, u: T, start: Seq<bool>, j: int, k: nat) -> T
    decreases k,
{
    if k == 0 {
        if start[j] {
            one::<T>()
        } else {
            zero::<T>()
        }
    } else {
        let rising = rising_part(knots, span, u, j, k as int, blended(knots, span, u, start, j, (k - 1) as nat));
        let above = blended(knots, span, u, start, j + 1, (k - 1) as nat);
        if is_zero(above) {
            rising
        } else {
            rising.add_spec(
                knots[span + j + k + 1].sub_spec(u).mul_spec(ratio(above, reach(knots, span + j + 1, k as int))),
            )
        }
    }
}

/// The value of the basis function `span` of degree `p` for a given start.
pub open spec fn one_basis_value<T: Scalar>(knots: Seq<T>, span: int, u: T, p: int, start: BasisStart) -> T {
    match start {
        BasisStart::One => one::<T>(),
        BasisStart::Zero => zero::<T>(),
        BasisStart::Table(table) => blended(knots, span, u, table@, 0, p as nat),
    }
}

/// The start fits the degree: a table has one entry for each knot interval of
/// the support.
pub open spec fn start_fits(p: int, start: BasisStart) -> bool {
    start matches BasisStart::Table(table) ==> table@.len() == p + 1
}

/// Computes the value at `u` of the basis function `span` of degree `p`
/// alone, from the start that [`start_one_basis_function`] has decided for
/// the same arguments; `m` is the index of the last knot.
///
/// Where the start is a table, the functions of degree 0 under the support
/// are blended degree by degree; each degree needs one function less, and the
/// last one left is the result. A function that vanishes is not divided, and
/// a quotient with a vanishing denominator counts as zero.
///
/// The call is refused with `Index` where the knot `m` does not exist, the
/// support of the function reaches beyond it, or the start is a table of
/// another length than `p + 1`.
pub fn calculate_one_basis_function<T: Scalar>(
    p: usize,
    m: usize,
    knots: Vec<T>,
    span: usize,
    u: T,
    start: &BasisStart,
) -> (r: Result<T, EvalError>)
    requires
        total::<T>(),
    ensures
        r is Ok <==> one_basis_indices_fit(p as int, m as int, knots@.len() as int, span as int) && start_fits(
            p as int,
            *start,
        ),
        r is Err ==> r == Err::<T, EvalError>(EvalError::Index),
        r matches Ok(value) ==> (faithful::<T>() ==> value == one_basis_value(
            knots@,
            span as int,
            u,
            p as int,
            *start,
        )),
{
    if m >= knots.len() || p >= m || span >= m - p {
        return Err(EvalError::Index);
    }
    let nothing: T = from_whole(0);
    let unit: T = from_whole(1);
    let marks = match start {
        BasisStart::One => {
            return Ok(unit);
        },
        BasisStart::Zero => {
            return Ok(nothing);
        },
        BasisStart::Table(marks) => marks,
    };
    if marks.len() != p + 1 {
        return Err(EvalError::Index);
    }
    let mut table: Vec<T> = Vec::new();
    let mut j: usize = 0;
    while j <= p
        invariant
            0 <= j <= p + 1,
            p < usize::MAX,
            marks@.len() == p + 1,
            table@.len() == j,
            faithful::<T>() ==> nothing == zero::<T>() && unit == one::<T>(),
            faithful::<T>() ==> forall|i: int|
                0 <= i < j ==> #[trigger] table@[i] == blended(knots@, span as int, u, marks@, i, 0),
        decreases p + 1 - j,
    {
        table.push(
            if marks[j] {
                unit
            } else {
                nothing
            },
        );
        j += 1;
    }
    let mut k: usize = 1;
    while k <= p
        invariant
            total::<T>(),
            1 <= k <= p + 1,
            span + p + 1 <= m < knots@.len(),
            table@.len() == p + 1,
            faithful::<T>() ==> nothing == zero::<T>(),
            faithful::<T>() ==> forall|i: int|
                0 <= i <= p - (k - 1) ==> #[trigger] table@[i] == blended(
                    knots@,
                    span as int,
                    u,
                    marks@,
                    i,
                    (k - 1) as nat,
                ),
        decreases p + 1 - k,
    {
        let ghost before = table@;
        let mut saved: T = if table[0] == nothing {
            nothing
        } else {
            divide((u - knots[span]) * table[0], knots[span + k] - knots[span])
        };
        let mut j: usize = 0;
        while j <= p - k
            invariant
                total::<T>(),
                1 <= k <= p,
                0 <= j <= p - k + 1,
                span + p + 1 <= m < knots@.len(),
                table@.len() == p + 1,
                before.len() == p + 1,
                faithful::<T>() ==> nothing == zero::<T>(),
                faithful::<T>() ==> forall|i: int|
                    0 <= i <= p - (k - 1) ==> #[trigger] before[i] == blended(
                        knots@,
                        span as int,
                        u,
                        marks@,
                        i,
                        (k - 1) as nat,
                    ),
                forall|i: int| j <= i <= p ==> #[trigger] table@[i] == before[i],
                faithful::<T>() ==> forall|i: int|
                    0 <= i < j ==> #[trigger] table@[i] == blended(knots@, span as int, u, marks@, i, k as nat),
                faithful::<T>() ==> saved == rising_part(
                    knots@,
                    span as int,
                    u,
                    j as int,
                    k as int,
                    before[j as int],
                ),
            decreases p - k + 1 - j,
        {
            let knot_left: T = knots[span + j + 1];
            let knot_right: T = knots[span + j + k + 1];
            if table[j + 1] == nothing {
                table[j] = saved;
                saved = nothing;
            } else {
                let temp: T = divide(table[j + 1], knot_right - knot_left);
                table[j] = saved + (knot_right - u) * temp;
                saved = (u - knot_left) * temp;
            }
            j += 1;
        }
        k += 1;
    }
    Ok(table[0])
}

/// The table marks the knot interval of the support of the basis function
/// `i` of degree `p` that is the span `s`, and no other.
pub open spec fn marks_span(marks: Seq<bool>, p: int, i: int, s: int) -> bool {
    &&& marks.len() == p + 1
    &&& forall|t: int| 0 <= t <= p ==> #[trigger] marks[t] == (i + t == s)
}

/// The table with which an evaluation starts marks the span of the
/// parameter: where the knots form a knot vector and the parameter lies in
/// the support of the basis function `i`, a table that marks the knot
/// intervals that hold the parameter marks one span, the knot interval that
/// encloses the parameter, and no other.
pub proof fn lemma_start_marks_the_span(table: Seq<bool>, p: int, knots: Seq<Binary64>, i: int, u: Binary64)
    requires
        0 <= p,
        0 <= i,
        i + p + 1 < knots.len(),
        valid_knots(knots),
        !outside_support(p, knots, i, u),
        marks_intervals(table, p, knots, i, u),
    ensures
        exists|s: int|
            i <= s <= i + p && #[trigger] marks_span(table, p, i, s) && knots[s].value() <= u.value()
                < knots[s + 1].value(),
{
    lemma_one_interval_holds_parameter(p, knots, i, u);
    let j = choose|j: int| 0 <= j <= p && in_interval(knots, i, u, j);
    assert forall|t: int| 0 <= t <= p implies #[trigger] table[t] == (i + t == i + j) by {
        if in_interval(knots, i, u, t) {
            assert(t == j);
        }
    }
    assert(marks_span(table, p, i, i + j));
}

/// Every function that the blending of one basis function forms is the
/// function of the table of its span.
proof fn lemma_blended_is_basis_value<T: Scalar>(
    knots: Seq<T>,
    i: int,
    s: int,
    u: T,
    marks: Seq<bool>,
    p: int,
    j: int,
    k: nat,
)
    requires
        field_laws::<T>(),
        marks_span(marks, p, i, s),
        0 <= j,
        j + k <= p,
    ensures
        blended(knots, i, u, marks, j, k) == basis_value(knots, s, u, i + j, k),
    decreases k,
{
    if k > 0 {
        lemma_blended_is_basis_value(knots, i, s, u, marks, p, j, (k - 1) as nat);
        lemma_blended_is_basis_value(knots, i, s, u, marks, p, j + 1, (k - 1) as nat);
        let ii = i + j;
        let below = basis_value(knots, s, u, ii, (k - 1) as nat);
        let above = basis_value(knots, s, u, ii + 1, (k - 1) as nat);
        let rise = u.sub_spec(knots[ii]);
        let fall = knots[ii + k + 1].sub_spec(u);
        lemma_zero_is_zero(below);
        lemma_zero_is_zero(above);
        lemma_zero_is_zero(zero::<T>());
        lemma_distances_add_up(knots[ii + k], u, knots[ii]);
        lemma_distances_add_up(knots[ii + k + 1], u, knots[ii + 1]);
        assert(support(knots, u, ii, k as int) == reach(knots, ii, k as int));
        assert(support(knots, u, ii + 1, k as int) == reach(knots, ii + 1, k as int));
        lemma_ratio_of_product(rise, below, reach(knots, ii, k as int));
        let rising_here = rising_part(knots, i, u, j, k as int, below);
        assert(rising_here == rising(knots, s, u, ii, k)) by {
            lemma_share_of_zero(zero::<T>(), rise, reach(knots, ii, k as int));
        }
        let falling_here = falling(knots, s, u, ii, k);
        assert(is_zero(above) ==> falling_here == zero::<T>() && rising_here.add_spec(falling_here)
            == rising_here) by {
            lemma_share_of_zero(rising_here, fall, reach(knots, ii + 1, k as int));
        }
        lemma_zero_is_neutral(falling_here);
        lemma_zero_is_neutral(zero::<T>());
        if ii < s - k || ii > s {
            assert(is_zero(below) && is_zero(above));
        } else if ii == s - k {
            assert(is_zero(below));
        } else if ii == s {
            assert(is_zero(above));
        }
    }
}

/// The value of one basis function alone is its value in the table of the
/// span: where the start marks the span `s` in the support of the basis
/// function `i` of degree `p`, [`calculate_one_basis_function`] returns for
/// `i` what [`crate::algorithms::calculate_basis_functions`] returns for `s`
/// as the entry `i - (s - p)`. This holds for a scalar type that obeys the
/// laws of a field.
pub proof fn lemma_one_basis_function_agrees<T: Scalar>(
    knots: Seq<T>,
    i: int,
    s: int,
    u: T,
    p: nat,
    table: Vec<bool>,
)
    requires
        field_laws::<T>(),
        marks_span(table@, p as int, i, s),
    ensures
        one_basis_value(knots, i, u, p as int, BasisStart::Table(table)) == basis_value(knots, s, u, i, p),
{
    lemma_blended_is_basis_value(knots, i, s, u, table@, p as int, 0, p);
}

} // verus!
