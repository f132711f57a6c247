//! The ways in which an evaluation can be refused.

use vstd::prelude::*;

verus! {

/// Why a call was refused. A refusal is final for the call: nothing is
/// computed from arguments that are out of range.
#[derive(Clone, Copy, Debug, PartialEq, Eq, Structural)]
pub enum EvalError {
    /// A degree, span or derivative order does not fit the length of the
    /// knot vector, or does not fit another argument.
    Index,
    /// The knot vector is not a non-decreasing sequence of real numbers, or
    /// the parameter is not a real number of the interval it has to lie in.
    Domain,
}

} // verus!
