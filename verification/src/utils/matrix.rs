//! Access to a grid of control points by rows and by columns.

use vstd::prelude::*;

verus! {

/// A grid of values that hands out its rows and its columns as ordered
/// sequences, whatever its storage.
pub trait Matrix<T> {
    /// The values of the row `index`, in the order of the columns.
    fn row(&self, index: usize) -> Vec<T>;

    /// The values of the column `index`, in the order of the rows.
    fn column(&self, index: usize) -> Vec<T>;
}

} // verus!
