//! Bezier curves.

use vstd::prelude::*;
use vstd::std_specs::ops::{AddSpec, MulSpec};
use crate::algorithms::bernstein::{all_bernstein, bernstein_step};
use crate::geometry::vector::Vector;
use crate::scalar::{Scalar, total, faithful};

verus! {

/// A Bezier curve, given by its control points.
pub struct Bezier<T> {
    pub control_points: Vec<Vector<T>>,
}

/// The sum of the first `count` control points, each coordinate of a point
/// multiplied by the weight of the point, added up from the origin in the
/// order of the points.
pub open spec fn weighted_sum<T: Scalar>(weights: Seq<T>, points: Seq<Vector<T>>, count: nat) -> Vector<T>
    decreases count,
{
    if count == 0 {
        Vector::<T>::spec_zero()
    } else {
        let sum = weighted_sum(weights, points, (count - 1) as nat);
        let weight = weights[count - 1];
        let point = points[count - 1];
        Vector {
            x: sum.x.add_spec(weight.mul_spec(point.x)),
            y: sum.y.add_spec(weight.mul_spec(point.y)),
            z: sum.z.add_spec(weight.mul_spec(point.z)),
        }
    }
}

impl<T: Scalar> Bezier<T> {
    /// The curve with the control points `control_points`.
    pub fn new(control_points: Vec<Vector<T>>) -> (curve: Bezier<T>)
        ensures
            curve.control_points == control_points,
    {
        Bezier { control_points }
    }

    /// The degree of the curve, which is here the number of its control
    /// points.
    pub fn degree(&self) -> (d: usize)
        ensures
            d == self.control_points@.len(),
    {
        self.control_points.len()
    }

    /// The values at `u` of the Bernstein polynomials of the degree that
    /// [`Bezier::degree`] gives.
    pub open spec fn weights(self, u: T) -> Seq<T> {
        Seq::new(self.control_points@.len() + 1, |k: int| bernstein_step(u, self.control_points@.len(), k))
    }

    /// Computes the point of the curve at `u` as the sum of the control
    /// points, each weighted by a Bernstein polynomial.
    ///
    /// The polynomials are those of the degree that [`Bezier::degree`]
    /// gives, the number of control points; the control point `k` has the
    /// polynomial `k`, and the last polynomial has no control point.
    pub fn point_at(&self, u: T) -> (point: Vector<T>)
        requires
            total::<T>(),
            self.control_points@.len() < usize::MAX,
        ensures
            faithful::<T>() ==> point == weighted_sum(
                self.weights(u),
                self.control_points@,
                self.control_points@.len(),
            ),
    {
        let degree = self.degree();
        let bernstein = all_bernstein(degree, u);
        let mut c: Vector<T> = Vector::zero();
        let mut k: usize = 0;
        while k < degree
            invariant
                total::<T>(),
                0 <= k <= degree,
                degree == self.control_points@.len(),
                bernstein@.len() == degree + 1,
                faithful::<T>() ==> forall|i: int|
                    0 <= i <= degree ==> #[trigger] bernstein@[i] == bernstein_step(u, degree as nat, i),
                faithful::<T>() ==> c == weighted_sum(self.weights(u), self.control_points@, k as nat),
            decreases degree - k,
        {
            c.x = c.x + bernstein[k] * self.control_points[k].x;
            c.y = c.y + bernstein[k] * self.control_points[k].y;
            c.z = c.z + bernstein[k] * self.control_points[k].z;
            k += 1;
        }
        c
    }
}

} // verus!
