//! Points of a curve that is given by its control points.

use vstd::prelude::*;
use vstd::std_specs::ops::{AddSpec, SubSpec, MulSpec};
use crate::error::EvalError;
use crate::geometry::vector::Vector;
use crate::scalar::{Scalar, total, faithful, zero, one, from_whole};
use crate::field::{field_laws, lemma_weights_at_the_ends, lemma_product_with_zero_adds_nothing};

verus! {

/// The value at `u` of the polynomial with the coefficients `points[i..=n]`,
/// the lowest first, by nested multiplication: the coefficient `i` plus `u`
/// times the value of the coefficients above it.
pub open spec fn nested<T: Scalar>(points: Seq<Vector<T>>, n: int, u: T, i: int) -> Vector<T>
    decreases n - i,
{
    if i >= n {
        points[n]
    } else {
        nested(points, n, u, i + 1).scaled(u).plus(points[i])
    }
}

/// Computes the point at `u` of a curve in the power basis: the polynomial
/// of degree `n` whose coefficients are `points[0..=n]`, the constant term
/// first. The degree is the number of coefficients less one.
///
/// The value is formed by nested multiplication, from the coefficient of the
/// highest power down to the constant term.
///
/// The call is refused with `Index` where the coefficient `n` does not
/// exist.
pub fn horner<T: Scalar>(points: &Vec<Vector<T>>, n: usize, u: T) -> (r: Result<Vector<T>, EvalError>)
    requires
        total::<T>(),
    ensures
        r is Ok <==> n < points@.len(),
        r is Err ==> r == Err::<Vector<T>, EvalError>(EvalError::Index),
        r matches Ok(point) ==> (faithful::<T>() ==> point == nested(points@, n as int, u, 0)),
{
    if n >= points.len() {
        return Err(EvalError::Index);
    }
    let mut c: Vector<T> = points[n];
    let mut i: usize = n;
    while i > 0
        invariant
            total::<T>(),
            0 <= i <= n < points@.len(),
            faithful::<T>() ==> c == nested(points@, n as int, u, i as int),
        decreases i,
    {
        i -= 1;
        c = c * u + points[i];
    }
    Ok(c)
}

/// The point between `a` and `b` that divides the way from `a` to `b` as `u`
/// divides the way from zero to one.
pub open spec fn between<T: Scalar>(a: Vector<T>, b: Vector<T>, u: T) -> Vector<T> {
    a.scaled(one::<T>().sub_spec(u)).plus(b.scaled(u))
}

/// The point `i` after `k` passes of repeated linear interpolation: a control
/// point for `k == 0`, and else the point between the points `i` and `i + 1`
/// of the pass before.
pub open spec fn interpolated<T: Scalar>(points: Seq<Vector<T>>, u: T, i: int, k: nat) -> Vector<T>
    decreases k,
{
    if k == 0 {
        points[i]
    } else {
        between(interpolated(points, u, i, (k - 1) as nat), interpolated(points, u, i + 1, (k - 1) as nat), u)
    }
}

/// Computes the point at `u` of the Bezier curve of degree `n` with the
/// control points `points[0..=n]` by repeated linear interpolation. The degree
/// is the number of control points less one.
///
/// Each of `n` passes replaces every point but the last by the point between
/// it and its successor, so that the pass `k` leaves `n + 1 - k` points; the
/// one point that is left after the last pass is the result.
///
/// The call is refused with `Index` where the control point `n` does not
/// exist.
pub fn de_casteljeau<T: Scalar>(points: &Vec<Vector<T>>, n: usize, u: T) -> (r: Result<Vector<T>, EvalError>)
    requires
        total::<T>(),
    ensures
        r is Ok <==> n < points@.len(),
        r is Err ==> r == Err::<Vector<T>, EvalError>(EvalError::Index),
        r matches Ok(point) ==> (faithful::<T>() ==> point == interpolated(points@, u, 0, n as nat)),
{
    if n >= points.len() {
        return Err(EvalError::Index);
    }
    let mut pt_copy: Vec<Vector<T>> = Vec::new();
    let mut i: usize = 0;
    while i <= n
        invariant
            0 <= i <= n + 1,
            n < points@.len() <= usize::MAX,
            pt_copy@ == points@.take(i as int),
        decreases n + 1 - i,
    {
        pt_copy.push(points[i]);
        i += 1;
    }
    let unit: T = from_whole(1);
    let mut k: usize = 1;
    while k <= n
        invariant
            total::<T>(),
            1 <= k <= n + 1,
            n < points@.len() <= usize::MAX,
            pt_copy@.len() == n + 1,
            faithful::<T>() ==> unit == one::<T>(),
            faithful::<T>() ==> forall|i: int|
                0 <= i <= n + 1 - k ==> #[trigger] pt_copy@[i] == interpolated(points@, u, i, (k - 1) as nat),
        decreases n + 1 - k,
    {
        let ghost before = pt_copy@;
        let mut i: usize = 0;
        while i <= n - k
            invariant
                total::<T>(),
                1 <= k <= n,
                0 <= i <= n - k + 1,
                n < points@.len(),
                pt_copy@.len() == n + 1,
                before.len() == n + 1,
                faithful::<T>() ==> unit == one::<T>(),
                faithful::<T>() ==> forall|t: int|
                    0 <= t <= n + 1 - k ==> #[trigger] before[t] == interpolated(points@, u, t, (k - 1) as nat),
                forall|t: int| i <= t <= n ==> #[trigger] pt_copy@[t] == before[t],
                faithful::<T>() ==> forall|t: int|
                    0 <= t < i ==> #[trigger] pt_copy@[t] == interpolated(points@, u, t, k as nat),
            decreases n - k + 1 - i,
        {
            pt_copy[i] = pt_copy[i] * (unit - u) + pt_copy[i + 1] * u;
            i += 1;
        }
        k += 1;
    }
    Ok(pt_copy[0])
}

/// The point between two points that divides their way as zero does is the
/// first, and the one that divides it as one does is the second.
proof fn lemma_between_at_the_ends<T: Scalar>(a: Vector<T>, b: Vector<T>)
    requires
        field_laws::<T>(),
    ensures
        between(a, b, zero::<T>()) == a,
        between(a, b, one::<T>()) == b,
{
    lemma_weights_at_the_ends(a.x, b.x);
    lemma_weights_at_the_ends(a.y, b.y);
    lemma_weights_at_the_ends(a.z, b.z);
}

/// A Bezier curve starts at its first control point and ends at its last:
/// at zero repeated linear interpolation keeps the first point of every
/// pass, at one the last. This holds for a scalar type that obeys the laws
/// of a field; the points are those that [`de_casteljeau`] returns.
pub proof fn lemma_curve_meets_its_end_points<T: Scalar>(points: Seq<Vector<T>>, i: int, k: nat)
    requires
        field_laws::<T>(),
    ensures
        interpolated(points, zero::<T>(), i, k) == points[i],
        interpolated(points, one::<T>(), i, k) == points[i + k],
    decreases k,
{
    if k > 0 {
        lemma_curve_meets_its_end_points(points, i, (k - 1) as nat);
        lemma_curve_meets_its_end_points(points, i + 1, (k - 1) as nat);
        lemma_between_at_the_ends(
            interpolated(points, zero::<T>(), i, (k - 1) as nat),
            interpolated(points, zero::<T>(), i + 1, (k - 1) as nat),
        );
        lemma_between_at_the_ends(
            interpolated(points, one::<T>(), i, (k - 1) as nat),
            interpolated(points, one::<T>(), i + 1, (k - 1) as nat),
        );
    }
}

/// A curve in the power basis is at its constant term at zero: nested
/// multiplication by zero leaves the lowest coefficient. This holds for a
/// scalar type that obeys the laws of a field; the point is the one that
/// [`horner`] returns.
pub proof fn lemma_power_curve_starts_at_its_constant<T: Scalar>(points: Seq<Vector<T>>, n: int, i: int)
    requires
        field_laws::<T>(),
        i <= n,
    ensures
        nested(points, n, zero::<T>(), i) == points[i],
{
    if i < n {
        let above = nested(points, n, zero::<T>(), i + 1);
        lemma_product_with_zero_adds_nothing(above.x, points[i].x);
        lemma_product_with_zero_adds_nothing(above.y, points[i].y);
        lemma_product_with_zero_adds_nothing(above.z, points[i].z);
    }
}

} // verus!
