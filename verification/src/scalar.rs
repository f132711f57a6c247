//! The scalar type of the evaluators and the meaning of its arithmetic.

use vstd::prelude::*;
use vstd::std_specs::ops::{AddSpec, SubSpec, MulSpec, DivSpec, NegSpec};
use vstd::std_specs::cmp::PartialEqSpec;
use vstd::std_specs::convert::FromSpec;
use core::ops::{Add, Sub, Mul, Div, Neg};

verus! {

/// A type of numbers to compute with: it can be copied, added, subtracted,
/// multiplied, divided, negated and tested for equality, and the small whole
/// numbers convert into it. Every type with these operators is a scalar.
pub trait Scalar: Copy + Add<Output = Self> + Sub<Output = Self> + Mul<Output = Self> + Div<
    Output = Self,
> + Neg<Output = Self> + PartialEq + From<u32> {

}

impl<T> Scalar for T where
    T: Copy + Add<Output = T> + Sub<Output = T> + Mul<Output = T> + Div<Output = T> + Neg<
        Output = T,
    > + PartialEq + From<u32>,
 {

}

/// The operators of `T` accept every argument: none of them has a condition
/// on its operands, such as a sum that must fit or a divisor that must not be
/// zero. The evaluators require this of their scalar type.
pub open spec fn total<T: Scalar>() -> bool {
    &&& forall|a: T, b: T| #[trigger] a.add_req(b)
    &&& forall|a: T, b: T| #[trigger] a.sub_req(b)
    &&& forall|a: T, b: T| #[trigger] a.mul_req(b)
    &&& forall|a: T, b: T| #[trigger] a.div_req(b)
    &&& forall|a: T| #[trigger] a.neg_req()
}

/// The operators of `T` are functions of their operands, the ones that their
/// specifications name. The evaluators state their results for such types.
pub open spec fn faithful<T: Scalar>() -> bool {
    &&& <T as AddSpec>::obeys_add_spec()
    &&& <T as SubSpec>::obeys_sub_spec()
    &&& <T as MulSpec>::obeys_mul_spec()
    &&& <T as DivSpec>::obeys_div_spec()
    &&& <T as NegSpec>::obeys_neg_spec()
    &&& <T as PartialEqSpec>::obeys_eq_spec()
    &&& <T as FromSpec<u32>>::obeys_from_spec()
}

/// The scalar that the whole number `k` converts into.
pub open spec fn whole<T: Scalar>(k: u32) -> T {
    T::from_spec(k)
}

/// The scalar zero.
pub open spec fn zero<T: Scalar>() -> T {
    whole::<T>(0)
}

/// The scalar one.
pub open spec fn one<T: Scalar>() -> T {
    whole::<T>(1)
}

/// Whether `a` is equal to zero as the scalar type compares.
pub open spec fn is_zero<T: Scalar>(a: T) -> bool {
    a.eq_spec(&zero::<T>())
}

/// The quotient of the basis recurrences: a term with a vanishing
/// denominator contributes nothing, so the quotient by zero is zero.
pub open spec fn ratio<T: Scalar>(a: T, b: T) -> T {
    if is_zero(b) {
        zero::<T>()
    } else {
        a.div_spec(b)
    }
}

/// Converts the whole number `k`.
pub fn from_whole<T: Scalar>(k: u32) -> (r: T)
    ensures
        faithful::<T>() ==> r == whole::<T>(k),
{
    T::from(k)
}

/// Divides `a` by `b`, with zero for the quotient by zero.
pub fn divide<T: Scalar>(a: T, b: T) -> (r: T)
    requires
        total::<T>(),
    ensures
        faithful::<T>() ==> r == ratio(a, b),
{
    let nothing: T = from_whole(0);
    if b == nothing {
        nothing
    } else {
        a / b
    }
}

/// A vector of `count` copies of `value`.
pub fn filled<T: Copy>(count: usize, value: T) -> (v: Vec<T>)
    ensures
        v@ == Seq::new(count as nat, |i: int| value),
{
    let mut v: Vec<T> = Vec::new();
    while v.len() < count
        invariant
            v@.len() <= count,
            forall|i: int| 0 <= i < v@.len() ==> v@[i] == value,
        decreases count - v@.len(),
    {
        v.push(value);
    }
    v
}

} // verus!
