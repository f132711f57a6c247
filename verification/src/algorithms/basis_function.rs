//! The basis functions of degree `p` that do not vanish on one knot span.

use vstd::prelude::*;
use vstd::std_specs::ops::{AddSpec, SubSpec, MulSpec};
use crate::error::EvalError;
use crate::scalar::{Scalar, total, faithful, zero, one, is_zero, ratio, from_whole, divide, filled};
use crate::field::{
    field_laws,
    total_of,
    lemma_zero_is_neutral,
    lemma_sums_regroup,
    lemma_parts_make_the_whole,
};

verus! {

/// Degree and span fit the knots: the leftmost basis function that does not
/// vanish on the span, `span - p`, exists, and so does the last knot that an
/// evaluation on the span reads, `span + p`.
pub open spec fn window_fits(span: int, p: int, knot_count: int) -> bool {
    p <= span && span + p < knot_count
}

/// The length of the interval from `knots[i]` to `knots[i + j]`, formed as
/// the sum of the distances of the parameter from its two ends.
pub open spec fn support<T: Scalar>(knots: Seq<T>, u: T, i: int, j: int) -> T {
    knots[i + j].sub_spec(u).add_spec(u.sub_spec(knots[i]))
}

/// The share of the basis function `i` of degree `j - 1` that one unit of
/// its support carries: its value divided by the length of its support.
pub open spec fn share<T: Scalar>(knots: Seq<T>, span: int, u: T, i: int, j: nat) -> T
    decreases j, 0nat,
{
    if j == 0 {
        zero::<T>()
    } else {
        ratio(basis_value(knots, span, u, i, (j - 1) as nat), support(knots, u, i, j as int))
    }
}

/// The part of the basis function `i` of degree `j` that rises over the
/// support of the function `i` of the degree below: the distance of `u` from
/// `knots[i]` times the share of that function.
pub open spec fn rising<T: Scalar>(knots: Seq<T>, span: int, u: T, i: int, j: nat) -> T
    decreases j, 1nat,
{
    u.sub_spec(knots[i]).mul_spec(share(knots, span, u, i, j))
}

/// The part of the basis function `i` of degree `j` that falls over the
/// support of the function `i + 1` of the degree below: the distance of
/// `knots[i + j + 1]` from `u` times the share of that function.
pub open spec fn falling<T: Scalar>(knots: Seq<T>, span: int, u: T, i: int, j: nat) -> T
    decreases j, 1nat,
{
    knots[i + j + 1].sub_spec(u).mul_spec(share(knots, span, u, i + 1, j))
}

/// The value at `u` of the basis function `i` of degree `j`, for a parameter
/// of the span `span`.
///
/// The function of degree 0 of the span itself is one there. A function of
/// degree `j` is the sum of its rising and its falling part, which blend the
/// functions `i` and `i + 1` of the degree below. On the span only the
/// functions `span - j ..= span` of degree `j` differ from zero, so the
/// first of them has a falling part only, which is added to zero, and the
/// last a rising part only.
pub open spec fn basis_value<T: Scalar>(knots: Seq<T>, span: int, u: T, i: int, j: nat) -> T
    decreases j, 2nat,
{
    if i < span - j || i > span {
        zero::<T>()
    } else if j == 0 {
        one::<T>()
    } else if i == span - j {
        zero::<T>().add_spec(falling(knots, span, u, i, j))
    } else if i == span {
        rising(knots, span, u, i, j)
    } else {
        rising(knots, span, u, i, j).add_spec(falling(knots, span, u, i, j))
    }
}

/// Computes the `p + 1` basis functions of degree `p` that do not vanish on
/// `span`, at the parameter `u`. The entry `r` of the result belongs to the
/// basis function, and so to the control point, `span - p + r`.
///
/// The values are built degree by degree from the one function of degree 0,
/// each degree in place from the one before. A quotient with a vanishing
/// denominator, as knots of too high a multiplicity give, counts as zero.
///
/// The call is refused with `Index` where the span is below the degree or
/// the knot `span + p` does not exist.
pub fn calculate_basis_functions<T: Scalar>(span: usize, u: T, p: usize, knots: Vec<T>) -> (r: Result<
    Vec<T>,
    EvalError,
>)
    requires
        total::<T>(),
    ensures
        r is Ok <==> window_fits(span as int, p as int, knots@.len() as int),
        r is Err ==> r == Err::<Vec<T>, EvalError>(EvalError::Index),
        r matches Ok(values) ==> {
            &&& values@.len() == p + 1
            &&& faithful::<T>() ==> forall|i: int|
                0 <= i <= p ==> #[trigger] values@[i] == basis_value(knots@, span as int, u, span - p + i, p as nat)
        },
{
    if p > span || span >= knots.len() || p >= knots.len() - span {
        return Err(EvalError::Index);
    }
    let nothing: T = from_whole(0);
    let mut values: Vec<T> = filled(p + 1, nothing);
    values[0] = from_whole(1);
    let mut left: Vec<T> = filled(p + 1, nothing);
    let mut right: Vec<T> = filled(p + 1, nothing);
    let mut j: usize = 1;
    while j <= p
        invariant
            total::<T>(),
            1 <= j <= p + 1,
            window_fits(span as int, p as int, knots@.len() as int),
            values@.len() == p + 1,
            left@.len() == p + 1,
            right@.len() == p + 1,
            faithful::<T>() ==> nothing == zero::<T>(),
            faithful::<T>() ==> forall|t: int|
                1 <= t < j ==> #[trigger] left@[t] == u.sub_spec(knots@[span + 1 - t]),
            faithful::<T>() ==> forall|t: int|
                1 <= t < j ==> #[trigger] right@[t] == knots@[span + t].sub_spec(u),
            faithful::<T>() ==> forall|i: int|
                0 <= i < j ==> #[trigger] values@[i] == basis_value(
                    knots@,
                    span as int,
                    u,
                    span - (j - 1) + i,
                    (j - 1) as nat,
                ),
        decreases p + 1 - j,
    {
        left[j] = u - knots[span - (j - 1)];
        right[j] = knots[span + j] - u;
        let mut saved: T = nothing;
        let ghost before = values@;
        let mut r: usize = 0;
        while r < j
            invariant
                total::<T>(),
                0 <= r <= j <= p,
                window_fits(span as int, p as int, knots@.len() as int),
                values@.len() == p + 1,
                left@.len() == p + 1,
                right@.len() == p + 1,
                before.len() == p + 1,
                faithful::<T>() ==> nothing == zero::<T>(),
                faithful::<T>() ==> forall|t: int|
                    1 <= t <= j ==> #[trigger] left@[t] == u.sub_spec(knots@[span + 1 - t]),
                faithful::<T>() ==> forall|t: int|
                    1 <= t <= j ==> #[trigger] right@[t] == knots@[span + t].sub_spec(u),
                faithful::<T>() ==> forall|i: int|
                    0 <= i < j ==> #[trigger] before[i] == basis_value(
                        knots@,
                        span as int,
                        u,
                        span - (j - 1) + i,
                        (j - 1) as nat,
                    ),
                forall|i: int| r <= i < j ==> #[trigger] values@[i] == before[i],
                faithful::<T>() ==> forall|i: int|
                    0 <= i < r ==> #[trigger] values@[i] == basis_value(
                        knots@,
                        span as int,
                        u,
                        span - j + i,
                        j as nat,
                    ),
                faithful::<T>() ==> saved == if r == 0 {
                    zero::<T>()
                } else {
                    rising(knots@, span as int, u, span - j + r, j as nat)
                },
            decreases j - r,
        {
            let temp: T = divide(values[r], right[r + 1] + left[j - r]);
            values[r] = saved + right[r + 1] * temp;
            saved = left[j - r] * temp;
            r += 1;
        }
        values[j] = saved;
        j += 1;
    }
    Ok(values)
}

/// No support that the recurrence up to the degree `p` divides by vanishes.
/// It is so where the knots do not decrease and the span is not empty.
pub open spec fn supports_hold<T: Scalar>(knots: Seq<T>, span: int, u: T, p: nat) -> bool {
    forall|i: int, j: int| 1 <= j <= p && span - j < i <= span ==> !is_zero(#[trigger] support(knots, u, i, j))
}

/// The sum of the first `count` of the basis functions of degree `j` that do
/// not vanish on the span, added in their order.
pub open spec fn basis_sum<T: Scalar>(knots: Seq<T>, span: int, u: T, j: nat, count: nat) -> T
    decreases count,
{
    if count == 0 {
        zero::<T>()
    } else {
        basis_sum(knots, span, u, j, (count - 1) as nat).add_spec(
            basis_value(knots, span, u, span - j + count - 1, j),
        )
    }
}

/// The falling part of one function and the rising part of the next make up
/// the function of the degree below that both are shares of.
proof fn lemma_shares_make_the_function<T: Scalar>(knots: Seq<T>, span: int, u: T, i: int, j: nat)
    requires
        field_laws::<T>(),
        1 <= j,
        span - j <= i < span,
        !is_zero(support(knots, u, i + 1, j as int)),
    ensures
        falling(knots, span, u, i, j).add_spec(rising(knots, span, u, i + 1, j)) == basis_value(
            knots,
            span,
            u,
            i + 1,
            (j - 1) as nat,
        ),
{
    lemma_parts_make_the_whole(
        knots[i + j + 1].sub_spec(u),
        u.sub_spec(knots[i + 1]),
        basis_value(knots, span, u, i + 1, (j - 1) as nat),
        support(knots, u, i + 1, j as int),
    );
}

/// The first `c + 1` functions of degree `j` and the rising part of the next
/// one add up to the first `c + 1` functions of the degree below.
proof fn lemma_sum_with_carry<T: Scalar>(knots: Seq<T>, span: int, u: T, j: nat, c: nat)
    requires
        field_laws::<T>(),
        1 <= j,
        c < j,
        supports_hold(knots, span, u, j),
    ensures
        basis_sum(knots, span, u, j, c + 1).add_spec(rising(knots, span, u, span - j + c + 1, j)) == basis_sum(
            knots,
            span,
            u,
            (j - 1) as nat,
            c + 1,
        ),
    decreases c,
{
    let i = span - j + c;
    assert(!is_zero(support(knots, u, i + 1, j as int)));
    lemma_shares_make_the_function(knots, span, u, i, j);
    let below = basis_value(knots, span, u, i + 1, (j - 1) as nat);
    let fall = falling(knots, span, u, i, j);
    let next = rising(knots, span, u, i + 1, j);
    if c == 0 {
        assert(basis_sum(knots, span, u, j, 0) == zero::<T>());
        assert(basis_value(knots, span, u, i, j) == zero::<T>().add_spec(fall));
        lemma_zero_is_neutral(fall);
        lemma_zero_is_neutral(below);
        assert(basis_sum(knots, span, u, j, 1) == zero::<T>().add_spec(fall));
        assert(basis_sum(knots, span, u, (j - 1) as nat, 0) == zero::<T>());
        assert(basis_sum(knots, span, u, (j - 1) as nat, 1) == zero::<T>().add_spec(below));
    } else {
        lemma_sum_with_carry(knots, span, u, j, (c - 1) as nat);
        let before = basis_sum(knots, span, u, j, c);
        let rise = rising(knots, span, u, i, j);
        assert(basis_value(knots, span, u, i, j) == rise.add_spec(fall));
        lemma_sums_regroup(before, rise, fall, next);
    }
}

/// The basis functions of one degree add up to what those of the degree
/// below add up to.
proof fn lemma_sum_keeps_its_value<T: Scalar>(knots: Seq<T>, span: int, u: T, j: nat)
    requires
        field_laws::<T>(),
        supports_hold(knots, span, u, j),
    ensures
        basis_sum(knots, span, u, j, j + 1) == one::<T>(),
    decreases j,
{
    if j == 0 {
        lemma_zero_is_neutral(one::<T>());
        assert(basis_sum(knots, span, u, 0, 0) == zero::<T>());
        assert(basis_value(knots, span, u, span, 0) == one::<T>());
    } else {
        lemma_sum_keeps_its_value(knots, span, u, (j - 1) as nat);
        lemma_sum_with_carry(knots, span, u, j, (j - 1) as nat);
        assert(basis_value(knots, span, u, span, j) == rising(knots, span, u, span, j));
    }
}

/// Partition of unity: the basis functions of degree `p` that do not vanish
/// on a span add up to one, for a scalar type that obeys the laws of a field
/// and knots of which no support that the recurrence divides by vanishes.
/// The values are those that [`calculate_basis_functions`] returns.
pub proof fn lemma_basis_functions_sum_to_one<T: Scalar>(knots: Seq<T>, span: int, u: T, p: nat, values: Seq<T>)
    requires
        field_laws::<T>(),
        supports_hold(knots, span, u, p),
        values.len() == p + 1,
        forall|i: int| 0 <= i <= p ==> #[trigger] values[i] == basis_value(knots, span, u, span - p + i, p),
    ensures
        total_of(values) == one::<T>(),
{
    lemma_sum_keeps_its_value(knots, span, u, p);
    lemma_total_is_basis_sum(knots, span, u, p, values, p + 1);
    assert(values.take((p + 1) as int) =~= values);
}

/// The entries of the table add up as the basis functions do.
proof fn lemma_total_is_basis_sum<T: Scalar>(knots: Seq<T>, span: int, u: T, p: nat, values: Seq<T>, count: nat)
    requires
        values.len() == p + 1,
        count <= p + 1,
        forall|i: int| 0 <= i <= p ==> #[trigger] values[i] == basis_value(knots, span, u, span - p + i, p),
    ensures
        total_of(values.take(count as int)) == basis_sum(knots, span, u, p, count),
    decreases count,
{
    if count > 0 {
        lemma_total_is_basis_sum(knots, span, u, p, values, (count - 1) as nat);
        assert(values.take(count as int).drop_last() =~= values.take(count - 1));
        assert(values.take(count as int).last() == values[count - 1]);
    }
}

} // verus!
