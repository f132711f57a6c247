//! The Bernstein form of a Bezier curve: repeated linear interpolation
//! computes the sum of the control points weighted by the Bernstein
//! polynomials.

use vstd::prelude::*;
use vstd::std_specs::ops::{AddSpec, SubSpec, MulSpec};
use crate::algorithms::bernstein::bernstein_step;
use crate::algorithms::bezier_curve::{between, interpolated};
use crate::field::{field_laws, lemma_zero_is_neutral, lemma_products_commute};
use crate::geometry::vector::{
    Vector,
    lemma_zero_vector,
    lemma_vector_sum_scales,
    lemma_vector_scales_twice,
    lemma_vector_scales_by_sum,
    lemma_vector_sums_interleave,
    lemma_vector_sums_rearrange,
    lemma_vector_scaled_by_one,
};
use crate::scalar::{Scalar, zero, one};

verus! {

/// The sum of the control points `i`, `i + 1`, ... , `count` of them, each
/// scaled by the Bernstein polynomial of degree `k` with its number in the
/// sum, added in their order from the zero vector.
pub open spec fn bernstein_form<T: Scalar>(points: Seq<Vector<T>>, u: T, i: int, k: nat, count: nat) -> Vector<T>
    decreases count,
{
    if count == 0 {
        Vector::<T>::spec_zero()
    } else {
        bernstein_form(points, u, i, k, (count - 1) as nat).plus(
            points[i + count - 1].scaled(bernstein_step(u, k, count - 1)),
        )
    }
}

/// The first `c` terms of the form of degree `k` are made up of the first
/// `c` terms of the form of the degree below, scaled by `1 - u`, and of the
/// first `c - 1` terms of the form of the degree below that starts one
/// control point later, scaled by `u`.
proof fn lemma_form_splits<T: Scalar>(points: Seq<Vector<T>>, u: T, i: int, k: nat, c: nat)
    requires
        field_laws::<T>(),
        1 <= c <= k,
    ensures
        bernstein_form(points, u, i, k, c) == bernstein_form(points, u, i, (k - 1) as nat, c).scaled(
            one::<T>().sub_spec(u),
        ).plus(bernstein_form(points, u, i + 1, (k - 1) as nat, (c - 1) as nat).scaled(u)),
    decreases c,
{
    let u1 = one::<T>().sub_spec(u);
    let below = (k - 1) as nat;
    let m = c - 1;
    let point = points[i + m];
    let here = bernstein_step(u, below, m);
    let first_before = bernstein_form(points, u, i, below, m as nat);
    let first_term = point.scaled(here);
    assert(bernstein_form(points, u, i, below, c) == first_before.plus(first_term));
    lemma_vector_sum_scales(first_before, first_term, u1);
    lemma_vector_scales_twice(point, here, u1);
    lemma_products_commute(here, u1);
    let kept = point.scaled(u1.mul_spec(here));
    assert(bernstein_form(points, u, i, below, c).scaled(u1) == first_before.scaled(u1).plus(kept));
    if c == 1 {
        assert(first_before == Vector::<T>::spec_zero());
        assert(bernstein_form(points, u, i, k, 0) == Vector::<T>::spec_zero());
        assert(bernstein_form(points, u, i + 1, below, 0) == Vector::<T>::spec_zero());
        assert(bernstein_step(u, k, 0) == zero::<T>().add_spec(u1.mul_spec(here)));
        lemma_zero_is_neutral(u1.mul_spec(here));
        lemma_zero_vector(kept, u1);
        lemma_zero_vector(kept, u);
    } else {
        lemma_form_splits(points, u, i, k, (c - 1) as nat);
        let before = bernstein_step(u, below, m - 1);
        let second_before = bernstein_form(points, u, i + 1, below, (m - 1) as nat);
        let second_term = point.scaled(before);
        assert(bernstein_form(points, u, i + 1, below, m as nat) == second_before.plus(second_term));
        lemma_vector_sum_scales(second_before, second_term, u);
        lemma_vector_scales_twice(point, before, u);
        lemma_products_commute(before, u);
        let moved = point.scaled(u.mul_spec(before));
        assert(bernstein_step(u, k, m) == u.mul_spec(before).add_spec(u1.mul_spec(here)));
        lemma_vector_scales_by_sum(point, u.mul_spec(before), u1.mul_spec(here));
        lemma_vector_sums_rearrange(moved, kept, kept);
        lemma_vector_sums_interleave(first_before.scaled(u1), kept, second_before.scaled(u), moved);
    }
}

/// Repeated linear interpolation computes the Bernstein form: the point that
/// [`crate::algorithms::de_casteljeau`] returns for a curve of degree `k` is
/// the sum of its control points, each scaled by the value that
/// [`crate::algorithms::all_bernstein`] returns for it. This holds for a
/// scalar type that obeys the laws of a field.
pub proof fn lemma_interpolation_is_bernstein_form<T: Scalar>(points: Seq<Vector<T>>, u: T, i: int, k: nat)
    requires
        field_laws::<T>(),
    ensures
        interpolated(points, u, i, k) == bernstein_form(points, u, i, k, k + 1),
    decreases k,
{
    if k == 0 {
        assert(bernstein_form(points, u, i, 0, 0) == Vector::<T>::spec_zero());
        assert(bernstein_step(u, 0, 0) == one::<T>());
        lemma_vector_scaled_by_one(points[i]);
        lemma_zero_vector(points[i], u);
    } else {
        let below = (k - 1) as nat;
        let u1 = one::<T>().sub_spec(u);
        lemma_interpolation_is_bernstein_form(points, u, i, below);
        lemma_interpolation_is_bernstein_form(points, u, i + 1, below);
        lemma_form_splits(points, u, i, k, k);
        let point = points[i + k];
        let before = bernstein_step(u, below, k - 1);
        let first = bernstein_form(points, u, i, below, k);
        let second_before = bernstein_form(points, u, i + 1, below, (k - 1) as nat);
        let second_term = point.scaled(before);
        assert(bernstein_form(points, u, i + 1, below, k) == second_before.plus(second_term));
        lemma_vector_sum_scales(second_before, second_term, u);
        lemma_vector_scales_twice(point, before, u);
        lemma_products_commute(before, u);
        assert(bernstein_step(u, k, k as int) == u.mul_spec(before));
        lemma_vector_sums_rearrange(first.scaled(u1), second_before.scaled(u), point.scaled(u.mul_spec(before)));
    }
}

} // verus!
