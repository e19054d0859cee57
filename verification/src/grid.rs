//! Backing store for the spin lattice: a two-dimensional `ndarray` array.
//! Verus cannot look into `ndarray`, so the store is held in an opaque
//! struct whose behaviour is pinned by the contracts of the three accessors
//! below, stated over the two names `grid_seq` and `grid_side`.

use vstd::prelude::*;
use ndarray::Array2;
use crate::params::MAX_DIM;

verus! {

/// Opaque holder of the `dim` x `dim` array of spin cells.
#[verifier::external_body]
pub struct SpinGrid {
    cells: Array2<i8>,
}

/// The cells a grid holds, row by row: row `i`, column `j` sits at flat
/// index `i * side + j`.
pub uninterp spec fn grid_seq(g: SpinGrid) -> Seq<i8>;

/// The side length the grid was created with.
pub uninterp spec fn grid_side(g: SpinGrid) -> int;

impl SpinGrid {
    /// Relies on `ndarray::Array2::zeros`: a `dim` x `dim` array with every
    /// element zero.  The size bound keeps the element count far below the
    /// allocation limit `Array2::zeros` would panic on.
    #[verifier::external_body]
    pub fn zeros(dim: usize) -> (g: SpinGrid)
        requires
            1 <= dim <= MAX_DIM,
        ensures
            grid_side(g) == dim as int,
            grid_seq(g).len() == dim as int * dim as int,
            forall|k: int| 0 <= k < grid_seq(g).len() ==> grid_seq(g)[k] == 0i8,
    {
        SpinGrid { cells: Array2::zeros((dim, dim)) }
    }

    /// Relies on `ndarray` indexing (`Index` for `[usize; 2]`): returns the
    /// element at row `i`, column `j`; in bounds, so it does not panic.
    #[verifier::external_body]
    pub fn get(&self, i: usize, j: usize) -> (r: i8)
        requires
            i < grid_side(*self),
            j < grid_side(*self),
        ensures
            r == grid_seq(*self)[i as int * grid_side(*self) + j as int],
    {
        self.cells[[i, j]]
    }

    /// Relies on `ndarray` index assignment (`IndexMut` for `[usize; 2]`):
    /// overwrites exactly the element at row `i`, column `j`.
    #[verifier::external_body]
    pub fn set(&mut self, i: usize, j: usize, v: i8)
        requires
            i < grid_side(*old(self)),
            j < grid_side(*old(self)),
        ensures
            grid_side(*final(self)) == grid_side(*old(self)),
            grid_seq(*final(self)) == grid_seq(*old(self)).update(
                i as int * grid_side(*old(self)) + j as int,
                v,
            ),
    {
        self.cells[[i, j]] = v;
    }
}

} // verus!
