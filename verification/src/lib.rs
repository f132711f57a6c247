//! Verified kernel for the evaluation of Bezier and B-spline curves and
//! surfaces.
//!
//! The evaluators ([`algorithms`], [`geometry`]) compute with any scalar type
//! ([`scalar::Scalar`]). For every such type they are proved to stay inside
//! their tables and to end; for a type whose operators obey their
//! specifications their results are proved equal to the defining
//! recurrences; and for a type whose operators obey the laws of a field
//! ([`field`]) the results are proved to be what they are named after: a
//! partition of unity, the value of one basis function, the Bernstein form
//! of a curve.
//!
//! Decisions that order real numbers (which span holds a parameter, whether
//! knots form a knot vector, whether a basis function is trivially one or
//! zero) are taken on IEEE 754 binary64 bit patterns
//! ([`binary64::Binary64`]) and proved against the real numbers that the
//! patterns stand for.

pub mod algorithms;
pub mod binary64;
pub mod error;
pub mod field;
pub mod geometry;
pub mod scalar;
pub mod utils;
