//! The dense six-dimensional cell array, backed by `ndarray::Array6<u16>`.
//!
//! The backing array is opaque to the verifier, so `Grid` hides it behind
//! two uninterpreted names: `grid_cells`, the cells flattened in row-major
//! order, and `grid_dims`, the axis lengths the array was created with.
//! Each array operation the engine uses is a trusted wrapper whose
//! contract is stated over those names.

use vstd::prelude::*;
use crate::coords::{dims_pos, in_bounds, linc, volume, Coord, Dims};

verus! {

/// Dense six-dimensional array of 16-bit cell codes.
#[verifier::external_body]
pub struct Grid {
    arr: ndarray::Array6<u16>,
}

/// The cells of the grid, flattened in row-major order: the cell at
/// coordinate `c` sits at index `linc(grid_dims(g), c)`.
pub uninterp spec fn grid_cells(g: Grid) -> Seq<u16>;

/// The axis lengths the grid was created with.
pub uninterp spec fn grid_dims(g: Grid) -> Dims;

/// Relies on `ndarray::ArrayBase::zeros`: an array of the given shape
/// whose elements are all zero.
#[verifier::external_body]
pub(crate) fn grid_zeros(d: Dims) -> (g: Grid)
    requires
        dims_pos(d),
        volume(d) <= 0x7fff_ffff,
    ensures
        grid_dims(g) == d,
        grid_cells(g).len() == volume(d),
        forall|i: int| 0 <= i < grid_cells(g).len() ==> grid_cells(g)[i] == 0u16,
{
    Grid { arr: ndarray::Array6::<u16>::zeros(d) }
}

/// Relies on `ndarray::ArrayBase::dim`: returns the axis lengths.
#[verifier::external_body]
pub(crate) fn grid_dim(g: &Grid) -> (d: Dims)
    ensures
        d == grid_dims(*g),
{
    g.arr.dim()
}

/// Relies on `ndarray`'s `Index` impl: the element at the multi-index.
#[verifier::external_body]
pub(crate) fn grid_get(g: &Grid, c: Coord) -> (v: u16)
    requires
        in_bounds(grid_dims(*g), c),
    ensures
        v == grid_cells(*g)[linc(grid_dims(*g), c)],
{
    g.arr[[c.0, c.1, c.2, c.3, c.4, c.5]]
}

/// Relies on `ndarray`'s `IndexMut` impl: replaces the element at the
/// multi-index and touches nothing else.
#[verifier::external_body]
pub(crate) fn grid_set(g: &mut Grid, c: Coord, v: u16)
    requires
        in_bounds(grid_dims(*old(g)), c),
    ensures
        grid_dims(*final(g)) == grid_dims(*old(g)),
        grid_cells(*final(g)) == grid_cells(*old(g)).update(linc(grid_dims(*old(g)), c), v),
{
    g.arr[[c.0, c.1, c.2, c.3, c.4, c.5]] = v;
}

} // verus!
