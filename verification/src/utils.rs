//! Interfaces to data that the caller owns.

pub mod matrix;

pub use self::matrix::Matrix;
