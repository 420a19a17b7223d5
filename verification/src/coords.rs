//! Six-dimensional coordinates, their row-major linearization, and
//! axis-aligned adjacency.
//!
//! A coordinate `(x6, x5, x4, x3, x2, x1)` lies in a grid of sizes
//! `(s6, s5, s4, s3, s2, s1)`; `x6` is the slowest-varying axis. Two cells
//! are adjacent when they differ by exactly one step along exactly one
//! axis, so a cell has at most 12 neighbors.

use vstd::prelude::*;
use vstd::arithmetic::div_mod::*;

verus! {

/// The six axis sizes, slowest axis first.
pub type Dims = (usize, usize, usize, usize, usize, usize);

/// A cell coordinate, slowest axis first.
pub type Coord = (usize, usize, usize, usize, usize, usize);

/// Every axis has positive size.
pub open spec fn dims_pos(d: Dims) -> bool {
    d.0 >= 1 && d.1 >= 1 && d.2 >= 1 && d.3 >= 1 && d.4 >= 1 && d.5 >= 1
}

/// Number of cells in the grid.
pub open spec fn volume(d: Dims) -> int {
    d.0 * d.1 * d.2 * d.3 * d.4 * d.5
}

/// The coordinate lies inside the grid.
pub open spec fn in_bounds(d: Dims, c: Coord) -> bool {
    c.0 < d.0 && c.1 < d.1 && c.2 < d.2 && c.3 < d.3 && c.4 < d.4 && c.5 < d.5
}

/// Row-major linear index of the (possibly out-of-range) position
/// `(x6, x5, x4, x3, x2, x1)`.
pub open spec fn lin(d: Dims, x6: int, x5: int, x4: int, x3: int, x2: int, x1: int) -> int {
    ((((x6 * d.1 + x5) * d.2 + x4) * d.3 + x3) * d.4 + x2) * d.5 + x1
}

/// Row-major linear index of a coordinate.
pub open spec fn linc(d: Dims, c: Coord) -> int {
    lin(d, c.0 as int, c.1 as int, c.2 as int, c.3 as int, c.4 as int, c.5 as int)
}

/// The coordinate whose row-major linear index is `l`.
pub open spec fn coord_at(d: Dims, l: int) -> Coord {
    let x1 = l % (d.5 as int);
    let q1 = l / (d.5 as int);
    let x2 = q1 % (d.4 as int);
    let q2 = q1 / (d.4 as int);
    let x3 = q2 % (d.3 as int);
    let q3 = q2 / (d.3 as int);
    let x4 = q3 % (d.2 as int);
    let q4 = q3 / (d.2 as int);
    let x5 = q4 % (d.1 as int);
    let x6 = q4 / (d.1 as int);
    (x6 as usize, x5 as usize, x4 as usize, x3 as usize, x2 as usize, x1 as usize)
}

/// The two positions differ by one step along one axis and agree elsewhere.
pub open spec fn is_adjacent(a: Coord, b: Coord) -> bool {
    ||| (axis_step(a.0, b.0) && a.1 == b.1 && a.2 == b.2 && a.3 == b.3 && a.4 == b.4 && a.5 == b.5)
    ||| (a.0 == b.0 && axis_step(a.1, b.1) && a.2 == b.2 && a.3 == b.3 && a.4 == b.4 && a.5 == b.5)
    ||| (a.0 == b.0 && a.1 == b.1 && axis_step(a.2, b.2) && a.3 == b.3 && a.4 == b.4 && a.5 == b.5)
    ||| (a.0 == b.0 && a.1 == b.1 && a.2 == b.2 && axis_step(a.3, b.3) && a.4 == b.4 && a.5 == b.5)
    ||| (a.0 == b.0 && a.1 == b.1 && a.2 == b.2 && a.3 == b.3 && axis_step(a.4, b.4) && a.5 == b.5)
    ||| (a.0 == b.0 && a.1 == b.1 && a.2 == b.2 && a.3 == b.3 && a.4 == b.4 && axis_step(a.5, b.5))
}

/// The two axis positions differ by exactly one.
pub open spec fn axis_step(x: usize, y: usize) -> bool {
    x + 1 == y || y + 1 == x
}

/// Adjacency is symmetric.
pub proof fn lemma_adjacent_symmetric(a: Coord, b: Coord)
    ensures
        is_adjacent(a, b) == is_adjacent(b, a),
{
}

/// A mixed-radix digit step: appending a digit `r` below a prefix `q`
/// keeps the value in range and is undone by division and remainder.
proof fn lemma_digit_step(q: int, r: int, b: int, qq: int)
    requires
        b >= 1,
        0 <= r < b,
        0 <= q < qq,
    ensures
        0 <= q * b + r < qq * b,
        (q * b + r) / b == q,
        (q * b + r) % b == r,
{
    assert(0 <= q * b + r < qq * b) by (nonlinear_arith)
        requires
            b >= 1,
            0 <= r < b,
            0 <= q < qq,
    ;
    lemma_fundamental_div_mod_converse(q * b + r, b, q, r);
}

/// Splitting a value below `qq * b` into its quotient and remainder by `b`
/// gives a digit below `b` and a prefix below `qq`.
proof fn lemma_digit_split(l: int, b: int, qq: int)
    requires
        b >= 1,
        0 <= l < qq * b,
    ensures
        0 <= l % b < b,
        0 <= l / b < qq,
        (l / b) * b + l % b == l,
{
    lemma_fundamental_div_mod(l, b);
    lemma_mod_bound(l, b);
    lemma_div_pos_is_pos(l, b);
    assert((l / b) * b == b * (l / b)) by (nonlinear_arith);
    assert(l / b < qq) by (nonlinear_arith)
        requires
            b >= 1,
            0 <= l < qq * b,
            l == b * (l / b) + l % b,
            0 <= l % b < b,
            0 <= l / b,
    ;
}

/// An in-bounds coordinate has a linear index inside the grid volume.
pub proof fn lemma_linc_bounds(d: Dims, c: Coord)
    requires
        dims_pos(d),
        in_bounds(d, c),
    ensures
        0 <= linc(d, c) < volume(d),
{
    lemma_digit_step(c.0 as int, c.1 as int, d.1 as int, d.0 as int);
    lemma_digit_step(c.0 * d.1 + c.1, c.2 as int, d.2 as int, d.0 * d.1);
    lemma_digit_step((c.0 * d.1 + c.1) * d.2 + c.2, c.3 as int, d.3 as int, d.0 * d.1 * d.2);
    lemma_digit_step(
        ((c.0 * d.1 + c.1) * d.2 + c.2) * d.3 + c.3,
        c.4 as int,
        d.4 as int,
        d.0 * d.1 * d.2 * d.3,
    );
    lemma_digit_step(
        (((c.0 * d.1 + c.1) * d.2 + c.2) * d.3 + c.3) * d.4 + c.4,
        c.5 as int,
        d.5 as int,
        d.0 * d.1 * d.2 * d.3 * d.4,
    );
}

/// Linearizing an in-bounds coordinate and reading the digits back
/// returns the same coordinate.
pub proof fn lemma_coord_at_linc(d: Dims, c: Coord)
    requires
        dims_pos(d),
        in_bounds(d, c),
    ensures
        0 <= linc(d, c) < volume(d),
        coord_at(d, linc(d, c)) == c,
{
    lemma_linc_bounds(d, c);
    let q4 = c.0 * d.1 + c.1;
    let q3 = q4 * d.2 + c.2;
    let q2 = q3 * d.3 + c.3;
    let q1 = q2 * d.4 + c.4;
    lemma_digit_step(c.0 as int, c.1 as int, d.1 as int, d.0 as int);
    lemma_digit_step(q4, c.2 as int, d.2 as int, d.0 * d.1);
    lemma_digit_step(q3, c.3 as int, d.3 as int, d.0 * d.1 * d.2);
    lemma_digit_step(q2, c.4 as int, d.4 as int, d.0 * d.1 * d.2 * d.3);
    lemma_digit_step(q1, c.5 as int, d.5 as int, d.0 * d.1 * d.2 * d.3 * d.4);
}

/// Reading the digits of a linear index inside the volume gives an
/// in-bounds coordinate that linearizes back to the same index.
pub proof fn lemma_linc_coord_at(d: Dims, l: int)
    requires
        dims_pos(d),
        0 <= l < volume(d),
    ensures
        in_bounds(d, coord_at(d, l)),
        linc(d, coord_at(d, l)) == l,
{
    lemma_digit_split(l, d.5 as int, d.0 * d.1 * d.2 * d.3 * d.4);
    let q1 = l / (d.5 as int);
    lemma_digit_split(q1, d.4 as int, d.0 * d.1 * d.2 * d.3);
    let q2 = q1 / (d.4 as int);
    lemma_digit_split(q2, d.3 as int, d.0 * d.1 * d.2);
    let q3 = q2 / (d.3 as int);
    lemma_digit_split(q3, d.2 as int, d.0 * d.1);
    let q4 = q3 / (d.2 as int);
    lemma_digit_split(q4, d.1 as int, d.0 as int);
}

/// Distinct in-bounds coordinates have distinct linear indices.
pub proof fn lemma_linc_injective(d: Dims, a: Coord, b: Coord)
    requires
        dims_pos(d),
        in_bounds(d, a),
        in_bounds(d, b),
        linc(d, a) == linc(d, b),
    ensures
        a == b,
{
    lemma_coord_at_linc(d, a);
    lemma_coord_at_linc(d, b);
}

/// Every partial product of the axis sizes is bounded by the volume.
pub proof fn lemma_volume_prefixes(d: Dims)
    requires
        dims_pos(d),
    ensures
        d.0 <= volume(d),
        d.0 * d.1 <= volume(d),
        d.0 * d.1 * d.2 <= volume(d),
        d.0 * d.1 * d.2 * d.3 <= volume(d),
        d.0 * d.1 * d.2 * d.3 * d.4 <= volume(d),
        volume(d) >= 1,
{
    assert(d.0 <= volume(d) && d.0 * d.1 <= volume(d) && d.0 * d.1 * d.2 <= volume(d)
        && d.0 * d.1 * d.2 * d.3 <= volume(d) && d.0 * d.1 * d.2 * d.3 * d.4 <= volume(d)
        && volume(d) >= 1) by (nonlinear_arith)
        requires
            dims_pos(d),
    ;
}

/// Computes the number of cells in the grid.
pub fn total_cells(d: Dims) -> (n: usize)
    requires
        dims_pos(d),
        volume(d) <= 0x7fff_ffff,
    ensures
        n == volume(d),
{
    proof {
        lemma_volume_prefixes(d);
    }
    let p1: usize = d.0 * d.1;
    let p2: usize = p1 * d.2;
    let p3: usize = p2 * d.3;
    let p4: usize = p3 * d.4;
    p4 * d.5
}

/// Computes the coordinate whose row-major linear index is `l`.
pub fn coord_of_index(d: Dims, l: usize) -> (c: Coord)
    requires
        dims_pos(d),
        (l as int) < volume(d),
    ensures
        c == coord_at(d, l as int),
        in_bounds(d, c),
        linc(d, c) == l as int,
{
    proof {
        lemma_linc_coord_at(d, l as int);
    }
    let x1: usize = l % d.5;
    let q1: usize = l / d.5;
    let x2: usize = q1 % d.4;
    let q2: usize = q1 / d.4;
    let x3: usize = q2 % d.3;
    let q3: usize = q2 / d.3;
    let x4: usize = q3 % d.2;
    let q4: usize = q3 / d.2;
    let x5: usize = q4 % d.1;
    let x6: usize = q4 / d.1;
    (x6, x5, x4, x3, x2, x1)
}

} // verus!
