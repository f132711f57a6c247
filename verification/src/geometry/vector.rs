//! Points and directions of space.

use vstd::prelude::*;
use vstd::std_specs::ops::{AddSpec, AddSpecImpl, MulSpec, MulSpecImpl};
use core::ops::{Add, Mul};
use crate::scalar::{Scalar, total, faithful, zero, one, from_whole};
use crate::field::{
    field_laws,
    lemma_zero_is_neutral,
    lemma_zero_product,
    lemma_sum_times,
    lemma_times_sum,
    lemma_products_associate,
    lemma_sums_interleave,
    lemma_sums_commute,
    lemma_sums_associate,
    lemma_one_is_neutral,
};

verus! {

/// A point or a direction of space, given by three coordinates.
#[derive(Debug, Copy, Clone, PartialEq)]
pub struct Vector<T> {
    pub x: T,
    pub y: T,
    pub z: T,
}

impl<T: Scalar> Vector<T> {
    /// The vector with the coordinates `x`, `y` and `z`.
    pub fn new(x: T, y: T, z: T) -> (v: Vector<T>)
        ensures
            v == (Vector { x, y, z }),
    {
        Vector { x, y, z }
    }

    /// The vector whose coordinates are zero.
    pub open spec fn spec_zero() -> Vector<T> {
        Vector { x: zero::<T>(), y: zero::<T>(), z: zero::<T>() }
    }

    /// The vector whose coordinates are zero.
    pub fn zero() -> (v: Vector<T>)
        ensures
            faithful::<T>() ==> v == Self::spec_zero(),
    {
        Vector { x: from_whole(0), y: from_whole(0), z: from_whole(0) }
    }

    /// Every coordinate times `factor`.
    pub open spec fn scaled(self, factor: T) -> Vector<T> {
        Vector { x: self.x.mul_spec(factor), y: self.y.mul_spec(factor), z: self.z.mul_spec(factor) }
    }

    /// Every coordinate plus `shift`.
    pub open spec fn shifted(self, shift: T) -> Vector<T> {
        Vector { x: self.x.add_spec(shift), y: self.y.add_spec(shift), z: self.z.add_spec(shift) }
    }

    /// The sum, coordinate by coordinate.
    pub open spec fn plus(self, other: Vector<T>) -> Vector<T> {
        Vector { x: self.x.add_spec(other.x), y: self.y.add_spec(other.y), z: self.z.add_spec(other.z) }
    }
}

impl<T: Scalar> MulSpecImpl<T> for Vector<T> {
    open spec fn obeys_mul_spec() -> bool {
        faithful::<T>()
    }

    open spec fn mul_req(self, rhs: T) -> bool {
        total::<T>()
    }

    open spec fn mul_spec(self, rhs: T) -> Vector<T> {
        self.scaled(rhs)
    }
}

impl<T: Scalar> Mul<T> for Vector<T> {
    type Output = Vector<T>;

    /// Multiplies every coordinate by `rhs`.
    fn mul(self, rhs: T) -> Vector<T> {
        Vector { x: self.x * rhs, y: self.y * rhs, z: self.z * rhs }
    }
}

impl<T: Scalar> AddSpecImpl<T> for Vector<T> {
    open spec fn obeys_add_spec() -> bool {
        faithful::<T>()
    }

    open spec fn add_req(self, rhs: T) -> bool {
        total::<T>()
    }

    open spec fn add_spec(self, rhs: T) -> Vector<T> {
        self.shifted(rhs)
    }
}

impl<T: Scalar> Add<T> for Vector<T> {
    type Output = Vector<T>;

    /// Adds `rhs` to every coordinate.
    fn add(self, rhs: T) -> Vector<T> {
        Vector { x: self.x + rhs, y: self.y + rhs, z: self.z + rhs }
    }
}

impl<T: Scalar> AddSpecImpl<Vector<T>> for Vector<T> {
    open spec fn obeys_add_spec() -> bool {
        faithful::<T>()
    }

    open spec fn add_req(self, rhs: Vector<T>) -> bool {
        total::<T>()
    }

    open spec fn add_spec(self, rhs: Vector<T>) -> Vector<T> {
        self.plus(rhs)
    }
}

impl<T: Scalar> Add<Vector<T>> for Vector<T> {
    type Output = Vector<T>;

    /// Adds the vectors coordinate by coordinate.
    fn add(self, rhs: Vector<T>) -> Vector<T> {
        Vector { x: self.x + rhs.x, y: self.y + rhs.y, z: self.z + rhs.z }
    }
}

/// The zero vector is neutral on both sides of a sum, and scaled it stays
/// the zero vector.
pub proof fn lemma_zero_vector<T: Scalar>(a: Vector<T>, c: T)
    requires
        field_laws::<T>(),
    ensures
        Vector::<T>::spec_zero().plus(a) == a,
        a.plus(Vector::<T>::spec_zero()) == a,
        Vector::<T>::spec_zero().scaled(c) == Vector::<T>::spec_zero(),
{
    lemma_zero_is_neutral(a.x);
    lemma_zero_is_neutral(a.y);
    lemma_zero_is_neutral(a.z);
    lemma_zero_product(c);
}

/// A sum of vectors is scaled term by term.
pub proof fn lemma_vector_sum_scales<T: Scalar>(a: Vector<T>, b: Vector<T>, c: T)
    requires
        field_laws::<T>(),
    ensures
        a.plus(b).scaled(c) == a.scaled(c).plus(b.scaled(c)),
{
    lemma_sum_times(a.x, b.x, c);
    lemma_sum_times(a.y, b.y, c);
    lemma_sum_times(a.z, b.z, c);
}

/// Scaling twice is scaling by the product.
pub proof fn lemma_vector_scales_twice<T: Scalar>(a: Vector<T>, b: T, c: T)
    requires
        field_laws::<T>(),
    ensures
        a.scaled(b).scaled(c) == a.scaled(b.mul_spec(c)),
{
    lemma_products_associate(a.x, b, c);
    lemma_products_associate(a.y, b, c);
    lemma_products_associate(a.z, b, c);
}

/// A vector scaled by two factors and added up is the vector scaled by
/// their sum.
pub proof fn lemma_vector_scales_by_sum<T: Scalar>(a: Vector<T>, b: T, c: T)
    requires
        field_laws::<T>(),
    ensures
        a.scaled(b).plus(a.scaled(c)) == a.scaled(b.add_spec(c)),
{
    lemma_times_sum(a.x, b, c);
    lemma_times_sum(a.y, b, c);
    lemma_times_sum(a.z, b, c);
}

/// Two sums of vectors are added term by term.
pub proof fn lemma_vector_sums_interleave<T: Scalar>(a: Vector<T>, b: Vector<T>, c: Vector<T>, d: Vector<T>)
    requires
        field_laws::<T>(),
    ensures
        a.plus(b).plus(c.plus(d)) == a.plus(c).plus(b.plus(d)),
{
    lemma_sums_interleave(a.x, b.x, c.x, d.x);
    lemma_sums_interleave(a.y, b.y, c.y, d.y);
    lemma_sums_interleave(a.z, b.z, c.z, d.z);
}

/// The terms of a sum of vectors can change places and be grouped either
/// way.
pub proof fn lemma_vector_sums_rearrange<T: Scalar>(a: Vector<T>, b: Vector<T>, c: Vector<T>)
    requires
        field_laws::<T>(),
    ensures
        a.plus(b) == b.plus(a),
        a.plus(b).plus(c) == a.plus(b.plus(c)),
{
    lemma_sums_commute(a.x, b.x);
    lemma_sums_commute(a.y, b.y);
    lemma_sums_commute(a.z, b.z);
    lemma_sums_associate(a.x, b.x, c.x);
    lemma_sums_associate(a.y, b.y, c.y);
    lemma_sums_associate(a.z, b.z, c.z);
}

/// A vector scaled by one is the vector.
pub proof fn lemma_vector_scaled_by_one<T: Scalar>(a: Vector<T>)
    requires
        field_laws::<T>(),
    ensures
        a.scaled(one::<T>()) == a,
{
    lemma_one_is_neutral(a.x);
    lemma_one_is_neutral(a.y);
    lemma_one_is_neutral(a.z);
}

} // verus!
