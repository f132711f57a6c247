//! Control points with weights.

use vstd::prelude::*;
use vstd::std_specs::ops::DivSpec;
use crate::geometry::vector::Vector;
use crate::scalar::{Scalar, total, faithful, one, is_zero, from_whole};

verus! {

/// A control point of a rational curve: a location and a weight. The
/// location is kept multiplied by the weight; a point of weight zero keeps
/// its location as it is.
pub struct ControlPoint<T> {
    location: Vector<T>,
    weight: T,
}

/// The location as a control point of weight `weight` keeps it.
pub open spec fn weighted<T: Scalar>(location: Vector<T>, weight: T) -> Vector<T> {
    if is_zero(weight) {
        location
    } else {
        location.scaled(weight)
    }
}

/// The location that a control point of weight `weight` stands for, where it
/// keeps `kept`: `kept` times the inverse of the weight.
pub open spec fn unweighted<T: Scalar>(kept: Vector<T>, weight: T) -> Vector<T> {
    if is_zero(weight) {
        kept
    } else {
        kept.scaled(one::<T>().div_spec(weight))
    }
}

impl<T: Scalar> ControlPoint<T> {
    /// The location as the point keeps it.
    pub closed spec fn kept(self) -> Vector<T> {
        self.location
    }

    /// The weight of the point.
    pub closed spec fn weight(self) -> T {
        self.weight
    }

    /// The control point at `location` with the weight `weight`.
    pub fn new(location: Vector<T>, weight: T) -> (point: ControlPoint<T>)
        requires
            total::<T>(),
        ensures
            point.weight() == weight,
            faithful::<T>() ==> point.kept() == weighted(location, weight),
    {
        ControlPoint { location: ControlPoint::apply_weight(location, weight), weight }
    }

    fn apply_weight(location: Vector<T>, weight: T) -> (kept: Vector<T>)
        requires
            total::<T>(),
        ensures
            faithful::<T>() ==> kept == weighted(location, weight),
    {
        let nothing: T = from_whole(0);
        if weight == nothing {
            location
        } else {
            location * weight
        }
    }

    /// The location that the point stands for: what it keeps, divided by its
    /// weight.
    pub fn location(&self) -> (location: Vector<T>)
        requires
            total::<T>(),
        ensures
            faithful::<T>() ==> location == unweighted(self.kept(), self.weight()),
    {
        let nothing: T = from_whole(0);
        let unit: T = from_whole(1);
        if self.weight == nothing {
            self.location
        } else {
            self.location * (unit / self.weight)
        }
    }
}

} // verus!
