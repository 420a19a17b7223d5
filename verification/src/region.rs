//! The flood-fill region: the set of cells that uncovering a covered,
//! empty cell reveals.
//!
//! A cell belongs to the region of `start` when a chain of adjacent,
//! covered cells leads there from `start` and every link before the last
//! has payload zero. The region therefore holds the connected zero-payload
//! component of `start` together with its immediate nonzero-payload
//! border, and nothing else.

use vstd::prelude::*;
use crate::cell::{spec_covered, spec_empty, spec_mine, spec_payload};
use crate::coords::{dims_pos, in_bounds, is_adjacent, linc, volume, Coord, Dims};
use crate::state::{cells_wf, lemma_position_index_bounds, nbr_mine_count};

verus! {

/// `p` is a chain from `start` to `c`: consecutive cells are adjacent,
/// every cell on it is inside the grid and covered in `s`, and every cell
/// before the last has payload zero.
pub open spec fn is_fill_path(s: Seq<u16>, d: Dims, start: Coord, c: Coord, p: Seq<Coord>) -> bool {
    &&& p.len() >= 1
    &&& p[0] == start
    &&& p.last() == c
    &&& forall|i: int|
        0 <= i < p.len() ==> in_bounds(d, #[trigger] p[i]) && spec_covered(s[linc(d, p[i])])
    &&& forall|i: int|
        0 <= i < p.len() - 1 ==> is_adjacent(#[trigger] p[i], p[i + 1]) && spec_payload(
            s[linc(d, p[i])],
        ) == 0
}

/// `c` lies in the flood-fill region of `start` in grid contents `s`.
pub open spec fn in_region(s: Seq<u16>, d: Dims, start: Coord, c: Coord) -> bool {
    exists|p: Seq<Coord>| is_fill_path(s, d, start, c, p)
}

/// The start cell belongs to its own region.
pub proof fn lemma_region_start(s: Seq<u16>, d: Dims, start: Coord)
    requires
        in_bounds(d, start),
        spec_covered(s[linc(d, start)]),
    ensures
        in_region(s, d, start, start),
{
    let p = seq![start];
    assert(is_fill_path(s, d, start, start, p));
}

/// A covered neighbor of a zero-payload region cell is in the region too.
pub proof fn lemma_region_extend(s: Seq<u16>, d: Dims, start: Coord, c: Coord, n: Coord)
    requires
        in_region(s, d, start, c),
        spec_payload(s[linc(d, c)]) == 0,
        is_adjacent(c, n),
        in_bounds(d, n),
        spec_covered(s[linc(d, n)]),
    ensures
        in_region(s, d, start, n),
{
    let p = choose|p: Seq<Coord>| is_fill_path(s, d, start, c, p);
    let q = p.push(n);
    assert forall|i: int| 0 <= i < q.len() implies in_bounds(d, #[trigger] q[i]) && spec_covered(
        s[linc(d, q[i])],
    ) by {
        if i < p.len() {
            assert(q[i] == p[i]);
        }
    }
    assert forall|i: int| 0 <= i < q.len() - 1 implies is_adjacent(#[trigger] q[i], q[i + 1])
        && spec_payload(s[linc(d, q[i])]) == 0 by {
        assert(q[i] == p[i]);
        if i < p.len() - 1 {
            assert(q[i + 1] == p[i + 1]);
        } else {
            assert(q[i] == c && q[i + 1] == n);
        }
    }
    assert(is_fill_path(s, d, start, n, q));
}

/// No cell adjacent to a zero-payload empty cell holds a mine.
pub proof fn lemma_zero_nbrs_no_adjacent_mine(s: Seq<u16>, d: Dims, b: Coord, c: Coord)
    requires
        dims_pos(d),
        s.len() == volume(d),
        in_bounds(d, b),
        in_bounds(d, c),
        is_adjacent(b, c),
        nbr_mine_count(s, d, b) == 0,
    ensures
        !spec_mine(s[linc(d, c)]),
{
    lemma_position_index_bounds(d, b.0 - 1, b.1 as int, b.2 as int, b.3 as int, b.4 as int, b.5 as int);
    lemma_position_index_bounds(d, b.0 + 1, b.1 as int, b.2 as int, b.3 as int, b.4 as int, b.5 as int);
    lemma_position_index_bounds(d, b.0 as int, b.1 - 1, b.2 as int, b.3 as int, b.4 as int, b.5 as int);
    lemma_position_index_bounds(d, b.0 as int, b.1 + 1, b.2 as int, b.3 as int, b.4 as int, b.5 as int);
    lemma_position_index_bounds(d, b.0 as int, b.1 as int, b.2 - 1, b.3 as int, b.4 as int, b.5 as int);
    lemma_position_index_bounds(d, b.0 as int, b.1 as int, b.2 + 1, b.3 as int, b.4 as int, b.5 as int);
    lemma_position_index_bounds(d, b.0 as int, b.1 as int, b.2 as int, b.3 - 1, b.4 as int, b.5 as int);
    lemma_position_index_bounds(d, b.0 as int, b.1 as int, b.2 as int, b.3 + 1, b.4 as int, b.5 as int);
    lemma_position_index_bounds(d, b.0 as int, b.1 as int, b.2 as int, b.3 as int, b.4 - 1, b.5 as int);
    lemma_position_index_bounds(d, b.0 as int, b.1 as int, b.2 as int, b.3 as int, b.4 + 1, b.5 as int);
    lemma_position_index_bounds(d, b.0 as int, b.1 as int, b.2 as int, b.3 as int, b.4 as int, b.5 - 1);
    lemma_position_index_bounds(d, b.0 as int, b.1 as int, b.2 as int, b.3 as int, b.4 as int, b.5 + 1);
}

/// Along a fill path in a well-formed grid every cell is empty: the
/// flood fill never reaches a mine.
proof fn lemma_path_empty(s: Seq<u16>, d: Dims, start: Coord, c: Coord, p: Seq<Coord>)
    requires
        dims_pos(d),
        s.len() == volume(d),
        cells_wf(s, d),
        spec_empty(s[linc(d, start)]),
        is_fill_path(s, d, start, c, p),
    ensures
        spec_empty(s[linc(d, c)]),
    decreases p.len(),
{
    if p.len() == 1 {
        assert(c == start);
    } else {
        let q = p.drop_last();
        let b = p[p.len() - 2];
        assert forall|i: int| 0 <= i < q.len() implies in_bounds(d, #[trigger] q[i])
            && spec_covered(s[linc(d, q[i])]) by {
            assert(q[i] == p[i]);
        }
        assert forall|i: int| 0 <= i < q.len() - 1 implies is_adjacent(#[trigger] q[i], q[i + 1])
            && spec_payload(s[linc(d, q[i])]) == 0 by {
            assert(q[i] == p[i] && q[i + 1] == p[i + 1]);
        }
        assert(is_fill_path(s, d, start, b, q));
        lemma_path_empty(s, d, start, b, q);
        assert(in_bounds(d, b));
        assert(spec_payload(s[linc(d, b)]) == 0);
        assert(nbr_mine_count(s, d, b) == 0);
        assert(is_adjacent(b, c));
        lemma_zero_nbrs_no_adjacent_mine(s, d, b, c);
        crate::cell::lemma_mine_empty(s[linc(d, c)]);
    }
}

/// Every cell of a flood-fill region in a well-formed grid is empty.
pub proof fn lemma_region_empty(s: Seq<u16>, d: Dims, start: Coord, c: Coord)
    requires
        dims_pos(d),
        s.len() == volume(d),
        cells_wf(s, d),
        spec_empty(s[linc(d, start)]),
        in_region(s, d, start, c),
    ensures
        spec_empty(s[linc(d, c)]),
        !spec_mine(s[linc(d, c)]),
{
    let p = choose|p: Seq<Coord>| is_fill_path(s, d, start, c, p);
    lemma_path_empty(s, d, start, c, p);
    crate::cell::lemma_mine_empty(s[linc(d, c)]);
}

/// When a set of cells (those whose code changed from `s1` to `s2`)
/// contains the start and is closed under stepping from a changed
/// zero-payload cell to a covered neighbor, it contains the whole region.
proof fn lemma_path_processed(s1: Seq<u16>, s2: Seq<u16>, d: Dims, start: Coord, c: Coord, p: Seq<Coord>)
    requires
        is_fill_path(s1, d, start, c, p),
        s2[linc(d, start)] != s1[linc(d, start)],
        forall|a: Coord, b: Coord|
            in_bounds(d, a) && in_bounds(d, b) && s2[linc(d, a)] != s1[linc(d, a)] && spec_payload(
                s1[linc(d, a)],
            ) == 0 && #[trigger] is_adjacent(a, b) && spec_covered(s1[linc(d, b)]) ==> s2[linc(
                d,
                b,
            )] != s1[linc(d, b)],
    ensures
        s2[linc(d, c)] != s1[linc(d, c)],
    decreases p.len(),
{
    if p.len() == 1 {
        assert(c == start);
    } else {
        let q = p.drop_last();
        let b = p[p.len() - 2];
        assert forall|i: int| 0 <= i < q.len() implies in_bounds(d, #[trigger] q[i])
            && spec_covered(s1[linc(d, q[i])]) by {
            assert(q[i] == p[i]);
        }
        assert forall|i: int| 0 <= i < q.len() - 1 implies is_adjacent(#[trigger] q[i], q[i + 1])
            && spec_payload(s1[linc(d, q[i])]) == 0 by {
            assert(q[i] == p[i] && q[i + 1] == p[i + 1]);
        }
        assert(is_fill_path(s1, d, start, b, q));
        lemma_path_processed(s1, s2, d, start, b, q);
        assert(is_adjacent(b, c));
        assert(in_bounds(d, c) && spec_covered(s1[linc(d, c)]));
    }
}

/// Public form of the closure argument: a change set that contains the
/// start and is closed under the flood-fill step covers the region.
pub proof fn lemma_region_processed(s1: Seq<u16>, s2: Seq<u16>, d: Dims, start: Coord, c: Coord)
    requires
        in_region(s1, d, start, c),
        s2[linc(d, start)] != s1[linc(d, start)],
        forall|a: Coord, b: Coord|
            in_bounds(d, a) && in_bounds(d, b) && s2[linc(d, a)] != s1[linc(d, a)] && spec_payload(
                s1[linc(d, a)],
            ) == 0 && #[trigger] is_adjacent(a, b) && spec_covered(s1[linc(d, b)]) ==> s2[linc(
                d,
                b,
            )] != s1[linc(d, b)],
    ensures
        s2[linc(d, c)] != s1[linc(d, c)],
{
    let p = choose|p: Seq<Coord>| is_fill_path(s1, d, start, c, p);
    lemma_path_processed(s1, s2, d, start, c, p);
}

} // verus!
