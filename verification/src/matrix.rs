//! The transient grid of the edit-distance computation, kept in an
//! `ndarray` array.

use ndarray::Array2;
use vstd::prelude::*;

verus! {

/// A dense grid of `i32` cells with a fixed number of rows and columns. The
/// array is opaque here: what the grid holds is `grid_rows` of it.
#[verifier::external_body]
pub struct DistanceMatrix {
    cells: Array2<i32>,
}

/// The rows of a grid, top to bottom, each row left to right.
pub uninterp spec fn grid_rows(grid: DistanceMatrix) -> Seq<Seq<i32>>;

impl DistanceMatrix {
    /// `Array2::zeros` on the shape `(rows, cols)`: a grid of that shape with
    /// a zero in every cell. The call panics when the product of the axis
    /// lengths that are not zero, or the cells' four bytes each, exceed
    /// `isize::MAX`, so such shapes are left out.
    #[verifier::external_body]
    pub(crate) fn zeros(rows: usize, cols: usize) -> (grid: DistanceMatrix)
        requires
            0 < rows,
            0 < cols,
            rows * cols * 4 <= isize::MAX,
        ensures
            grid_rows(grid).len() == rows,
            forall|i: int| 0 <= i < rows ==> (#[trigger] grid_rows(grid)[i]).len() == cols,
            forall|i: int, j: int|
                0 <= i < rows && 0 <= j < cols ==> #[trigger] grid_rows(grid)[i][j] == 0,
    {
        DistanceMatrix { cells: Array2::zeros((rows, cols)) }
    }

    /// Indexing the array by `(i, j)`: the cell in row `i`, column `j`. The
    /// index panics outside the grid, so such positions are left out.
    #[verifier::external_body]
    pub(crate) fn get(&self, i: usize, j: usize) -> (cell: i32)
        requires
            i < grid_rows(*self).len(),
            j < grid_rows(*self)[i as int].len(),
        ensures
            cell == grid_rows(*self)[i as int][j as int],
    {
        self.cells[(i, j)]
    }

    /// Assigning through the index `(i, j)`: the cell in row `i`, column `j`
    /// takes the value, and every other cell keeps its own.
    #[verifier::external_body]
    pub(crate) fn set(&mut self, i: usize, j: usize, value: i32)
        requires
            i < grid_rows(*old(self)).len(),
            j < grid_rows(*old(self))[i as int].len(),
        ensures
            grid_rows(*final(self)) == grid_rows(*old(self)).update(
                i as int,
                grid_rows(*old(self))[i as int].update(j as int, value),
            ),
    {
        self.cells[(i, j)] = value;
    }
}

} // verus!
