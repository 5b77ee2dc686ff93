//! The two-dimensional cell store, kept in an `ndarray::Array2<bool>`.

use vstd::prelude::*;

verus! {

/// A `rows` x `cols` boolean array, row-major.
#[verifier::external_body]
pub struct Grid {
    a: ndarray::Array2<bool>,
}

/// The cells of a grid, one sequence per row.
pub uninterp spec fn grid_cells(g: Grid) -> Seq<Seq<bool>>;

/// The dimensions of a grid, as `(rows, cols)`.
pub uninterp spec fn grid_shape(g: Grid) -> (usize, usize);

/// `b` has `rows` rows of `cols` cells each.
pub open spec fn shaped(b: Seq<Seq<bool>>, rows: int, cols: int) -> bool {
    &&& b.len() == rows
    &&& forall|i: int| 0 <= i < rows ==> (#[trigger] b[i]).len() == cols
}

impl Grid {
    /// Relies on `Array2::default`: an array of the given shape whose elements
    /// are `bool::default()`, that is `false`. It panics when the product of
    /// the non-zero axis lengths overflows `isize`; with both lengths non-zero
    /// that product is `rows * cols`.
    #[verifier::external_body]
    pub fn empty(rows: usize, cols: usize) -> (g: Grid)
        requires
            rows >= 1,
            cols >= 1,
            rows * cols <= isize::MAX,
        ensures
            grid_shape(g) == (rows, cols),
            shaped(grid_cells(g), rows as int, cols as int),
            forall|i: int, j: int|
                0 <= i < rows && 0 <= j < cols ==> !#[trigger] grid_cells(g)[i][j],
    {
        Grid { a: ndarray::Array2::default((rows, cols)) }
    }

    /// Relies on `ArrayBase::dim`: the shape as a `(rows, cols)` pair.
    #[verifier::external_body]
    pub fn dim(&self) -> (d: (usize, usize))
        ensures
            d == grid_shape(*self),
    {
        self.a.dim()
    }

    /// Relies on `Index<(usize, usize)>` of `ArrayBase`: the element at row `r`,
    /// column `c`. It panics on an index out of bounds.
    #[verifier::external_body]
    pub fn at(&self, r: usize, c: usize) -> (v: bool)
        requires
            r < grid_shape(*self).0,
            c < grid_shape(*self).1,
        ensures
            v == grid_cells(*self)[r as int][c as int],
    {
        self.a[(r, c)]
    }

    /// Relies on `IndexMut<(usize, usize)>` of `ArrayBase`: overwrites the
    /// element at row `r`, column `c` and no other. It panics on an index out
    /// of bounds.
    #[verifier::external_body]
    pub fn put(&mut self, r: usize, c: usize, v: bool)
        requires
            r < grid_shape(*old(self)).0,
            c < grid_shape(*old(self)).1,
        ensures
            grid_shape(*final(self)) == grid_shape(*old(self)),
            grid_cells(*final(self)) == grid_cells(*old(self)).update(
                r as int,
                grid_cells(*old(self))[r as int].update(c as int, v),
            ),
    {
        self.a[(r, c)] = v;
    }

    /// Relies on `Clone` of `ArrayBase`: an array of the same shape and elements.
    #[verifier::external_body]
    pub fn copy(&self) -> (g: Grid)
        ensures
            grid_shape(g) == grid_shape(*self),
            grid_cells(g) == grid_cells(*self),
    {
        Grid { a: self.a.clone() }
    }
}

} // verus!
