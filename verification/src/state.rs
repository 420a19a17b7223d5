//! Spec-level view of the grid contents: neighbor mine counts and the
//! well-formedness invariant that ties every empty cell's payload to the
//! number of mines adjacent to it.

use vstd::prelude::*;
use crate::cell::{
    flag_clear, flag_set, mark_clear, mark_set, spec_covered, spec_empty, spec_flagged,
    spec_marked, spec_mine, spec_payload,
};
use crate::coords::{
    dims_pos, in_bounds, is_adjacent, lin, linc, volume, lemma_linc_bounds, lemma_linc_injective,
    Coord, Dims,
};

verus! {

/// Indicator of a mine at the (possibly out-of-range) position: 1 when the
/// position is inside the grid and holds a mine, else 0.
pub open spec fn mine_at(
    s: Seq<u16>,
    d: Dims,
    x6: int,
    x5: int,
    x4: int,
    x3: int,
    x2: int,
    x1: int,
) -> int {
    if 0 <= x6 < d.0 && 0 <= x5 < d.1 && 0 <= x4 < d.2 && 0 <= x3 < d.3 && 0 <= x2 < d.4 && 0 <= x1
        < d.5 && spec_mine(s[lin(d, x6, x5, x4, x3, x2, x1)]) {
        1
    } else {
        0
    }
}

/// Number of mines among the up to 12 axis-neighbors of `c`.
pub open spec fn nbr_mine_count(s: Seq<u16>, d: Dims, c: Coord) -> int {
    mine_at(s, d, c.0 - 1, c.1 as int, c.2 as int, c.3 as int, c.4 as int, c.5 as int)
        + mine_at(s, d, c.0 + 1, c.1 as int, c.2 as int, c.3 as int, c.4 as int, c.5 as int)
        + mine_at(s, d, c.0 as int, c.1 - 1, c.2 as int, c.3 as int, c.4 as int, c.5 as int)
        + mine_at(s, d, c.0 as int, c.1 + 1, c.2 as int, c.3 as int, c.4 as int, c.5 as int)
        + mine_at(s, d, c.0 as int, c.1 as int, c.2 - 1, c.3 as int, c.4 as int, c.5 as int)
        + mine_at(s, d, c.0 as int, c.1 as int, c.2 + 1, c.3 as int, c.4 as int, c.5 as int)
        + mine_at(s, d, c.0 as int, c.1 as int, c.2 as int, c.3 - 1, c.4 as int, c.5 as int)
        + mine_at(s, d, c.0 as int, c.1 as int, c.2 as int, c.3 + 1, c.4 as int, c.5 as int)
        + mine_at(s, d, c.0 as int, c.1 as int, c.2 as int, c.3 as int, c.4 - 1, c.5 as int)
        + mine_at(s, d, c.0 as int, c.1 as int, c.2 as int, c.3 as int, c.4 + 1, c.5 as int)
        + mine_at(s, d, c.0 as int, c.1 as int, c.2 as int, c.3 as int, c.4 as int, c.5 - 1)
        + mine_at(s, d, c.0 as int, c.1 as int, c.2 as int, c.3 as int, c.4 as int, c.5 + 1)
}

/// The grid contents are well formed: every empty cell's payload counts
/// the mines among its neighbors, and every mine cell carries payload 1.
pub open spec fn cells_wf(s: Seq<u16>, d: Dims) -> bool {
    forall|c: Coord|
        #[trigger] in_bounds(d, c) ==> {
            &&& (spec_empty(s[linc(d, c)]) ==> spec_payload(s[linc(d, c)]) == nbr_mine_count(
                s,
                d,
                c,
            ))
            &&& (spec_mine(s[linc(d, c)]) ==> spec_payload(s[linc(d, c)]) == 1)
        }
}

/// The grid contents after a flag toggle on the cell at index `i`:
/// covered turns flagged, flagged turns covered, anything else stays.
pub open spec fn flag_transform(s: Seq<u16>, i: int) -> Seq<u16> {
    if spec_covered(s[i]) {
        s.update(i, flag_set(s[i]))
    } else if spec_flagged(s[i]) {
        s.update(i, flag_clear(s[i]))
    } else {
        s
    }
}

/// The grid contents after a mark toggle on the cell at index `i`:
/// covered turns marked, marked turns covered, anything else stays.
pub open spec fn mark_transform(s: Seq<u16>, i: int) -> Seq<u16> {
    if spec_covered(s[i]) {
        s.update(i, mark_set(s[i]))
    } else if spec_marked(s[i]) {
        s.update(i, mark_clear(s[i]))
    } else {
        s
    }
}

/// Toggling the flag of a cell twice restores the grid exactly: the
/// cell code and with it the flagged count return to their old values.
pub proof fn lemma_flag_toggle_twice(s: Seq<u16>, i: int)
    requires
        0 <= i < s.len(),
    ensures
        flag_transform(flag_transform(s, i), i) == s,
{
    let v = s[i];
    crate::cell::lemma_visibility_partition(v);
    if spec_covered(v) {
        crate::cell::lemma_flag_set(v);
        crate::cell::lemma_visibility_partition(flag_set(v));
        let t = s.update(i, flag_set(v));
        assert(flag_transform(t, i) =~= s);
    } else if spec_flagged(v) {
        crate::cell::lemma_flag_clear(v);
        crate::cell::lemma_visibility_partition(flag_clear(v));
        let t = s.update(i, flag_clear(v));
        assert(flag_transform(t, i) =~= s);
    }
}

/// Every flagged cell holds a mine: there are no false flags.
pub open spec fn all_flags_on_mines(s: Seq<u16>) -> bool {
    forall|i: int| 0 <= i < s.len() && spec_flagged(#[trigger] s[i]) ==> spec_mine(s[i])
}

/// A neighbor count lies between 0 and 12.
pub proof fn lemma_nbr_count_range(s: Seq<u16>, d: Dims, c: Coord)
    ensures
        0 <= nbr_mine_count(s, d, c) <= 12,
{
}

/// Two grids whose cells agree on the mine bit everywhere have the same
/// neighbor counts.
pub proof fn lemma_nbr_count_same_mines(s1: Seq<u16>, s2: Seq<u16>, d: Dims, c: Coord)
    requires
        dims_pos(d),
        s1.len() == volume(d),
        s2.len() == volume(d),
        forall|i: int| 0 <= i < s1.len() ==> spec_mine(#[trigger] s2[i]) == spec_mine(s1[i]),
    ensures
        nbr_mine_count(s2, d, c) == nbr_mine_count(s1, d, c),
{
    lemma_position_index_bounds(d, c.0 - 1, c.1 as int, c.2 as int, c.3 as int, c.4 as int, c.5 as int);
    lemma_position_index_bounds(d, c.0 + 1, c.1 as int, c.2 as int, c.3 as int, c.4 as int, c.5 as int);
    lemma_position_index_bounds(d, c.0 as int, c.1 - 1, c.2 as int, c.3 as int, c.4 as int, c.5 as int);
    lemma_position_index_bounds(d, c.0 as int, c.1 + 1, c.2 as int, c.3 as int, c.4 as int, c.5 as int);
    lemma_position_index_bounds(d, c.0 as int, c.1 as int, c.2 - 1, c.3 as int, c.4 as int, c.5 as int);
    lemma_position_index_bounds(d, c.0 as int, c.1 as int, c.2 + 1, c.3 as int, c.4 as int, c.5 as int);
    lemma_position_index_bounds(d, c.0 as int, c.1 as int, c.2 as int, c.3 - 1, c.4 as int, c.5 as int);
    lemma_position_index_bounds(d, c.0 as int, c.1 as int, c.2 as int, c.3 + 1, c.4 as int, c.5 as int);
    lemma_position_index_bounds(d, c.0 as int, c.1 as int, c.2 as int, c.3 as int, c.4 - 1, c.5 as int);
    lemma_position_index_bounds(d, c.0 as int, c.1 as int, c.2 as int, c.3 as int, c.4 + 1, c.5 as int);
    lemma_position_index_bounds(d, c.0 as int, c.1 as int, c.2 as int, c.3 as int, c.4 as int, c.5 - 1);
    lemma_position_index_bounds(d, c.0 as int, c.1 as int, c.2 as int, c.3 as int, c.4 as int, c.5 + 1);
}

/// Changes that touch only visibility bits preserve well-formedness:
/// when mine bits, payloads and emptiness agree cell for cell, the
/// payload invariant carries over.
pub proof fn lemma_cells_wf_same_content(s1: Seq<u16>, s2: Seq<u16>, d: Dims)
    requires
        dims_pos(d),
        s1.len() == volume(d),
        s2.len() == volume(d),
        cells_wf(s1, d),
        forall|i: int|
            0 <= i < s1.len() ==> spec_mine(#[trigger] s2[i]) == spec_mine(s1[i]) && spec_payload(
                s2[i],
            ) == spec_payload(s1[i]) && spec_empty(s2[i]) == spec_empty(s1[i]),
    ensures
        cells_wf(s2, d),
{
    assert forall|c: Coord| #[trigger] in_bounds(d, c) implies {
        &&& (spec_empty(s2[linc(d, c)]) ==> spec_payload(s2[linc(d, c)]) == nbr_mine_count(
            s2,
            d,
            c,
        ))
        &&& (spec_mine(s2[linc(d, c)]) ==> spec_payload(s2[linc(d, c)]) == 1)
    } by {
        lemma_linc_bounds(d, c);
        lemma_nbr_count_same_mines(s1, s2, d, c);
    }
}

/// A grid without mines has neighbor count zero everywhere.
pub proof fn lemma_nbr_count_no_mines(s: Seq<u16>, d: Dims, c: Coord)
    requires
        dims_pos(d),
        s.len() == volume(d),
        forall|i: int| 0 <= i < s.len() ==> !spec_mine(#[trigger] s[i]),
    ensures
        nbr_mine_count(s, d, c) == 0,
{
    lemma_position_index_bounds(d, c.0 - 1, c.1 as int, c.2 as int, c.3 as int, c.4 as int, c.5 as int);
    lemma_position_index_bounds(d, c.0 + 1, c.1 as int, c.2 as int, c.3 as int, c.4 as int, c.5 as int);
    lemma_position_index_bounds(d, c.0 as int, c.1 - 1, c.2 as int, c.3 as int, c.4 as int, c.5 as int);
    lemma_position_index_bounds(d, c.0 as int, c.1 + 1, c.2 as int, c.3 as int, c.4 as int, c.5 as int);
    lemma_position_index_bounds(d, c.0 as int, c.1 as int, c.2 - 1, c.3 as int, c.4 as int, c.5 as int);
    lemma_position_index_bounds(d, c.0 as int, c.1 as int, c.2 + 1, c.3 as int, c.4 as int, c.5 as int);
    lemma_position_index_bounds(d, c.0 as int, c.1 as int, c.2 as int, c.3 - 1, c.4 as int, c.5 as int);
    lemma_position_index_bounds(d, c.0 as int, c.1 as int, c.2 as int, c.3 + 1, c.4 as int, c.5 as int);
    lemma_position_index_bounds(d, c.0 as int, c.1 as int, c.2 as int, c.3 as int, c.4 - 1, c.5 as int);
    lemma_position_index_bounds(d, c.0 as int, c.1 as int, c.2 as int, c.3 as int, c.4 + 1, c.5 as int);
    lemma_position_index_bounds(d, c.0 as int, c.1 as int, c.2 as int, c.3 as int, c.4 as int, c.5 - 1);
    lemma_position_index_bounds(d, c.0 as int, c.1 as int, c.2 as int, c.3 as int, c.4 as int, c.5 + 1);
}

/// An in-range position has a linear index inside the grid volume.
pub proof fn lemma_position_index_bounds(
    d: Dims,
    x6: int,
    x5: int,
    x4: int,
    x3: int,
    x2: int,
    x1: int,
)
    requires
        dims_pos(d),
    ensures
        (0 <= x6 < d.0 && 0 <= x5 < d.1 && 0 <= x4 < d.2 && 0 <= x3 < d.3 && 0 <= x2 < d.4 && 0
            <= x1 < d.5) ==> {
            let c = (
                x6 as usize,
                x5 as usize,
                x4 as usize,
                x3 as usize,
                x2 as usize,
                x1 as usize,
            );
            &&& in_bounds(d, c)
            &&& lin(d, x6, x5, x4, x3, x2, x1) == linc(d, c)
            &&& 0 <= lin(d, x6, x5, x4, x3, x2, x1) < volume(d)
        },
{
    if 0 <= x6 < d.0 && 0 <= x5 < d.1 && 0 <= x4 < d.2 && 0 <= x3 < d.3 && 0 <= x2 < d.4 && 0 <= x1
        < d.5 {
        let c = (x6 as usize, x5 as usize, x4 as usize, x3 as usize, x2 as usize, x1 as usize);
        lemma_linc_bounds(d, c);
    }
}

/// Setting a mine at `p` changes a single mine indicator: the one at the
/// position of `p` itself.
proof fn lemma_mine_at_after_mine(
    s1: Seq<u16>,
    s2: Seq<u16>,
    d: Dims,
    p: Coord,
    x6: int,
    x5: int,
    x4: int,
    x3: int,
    x2: int,
    x1: int,
)
    requires
        dims_pos(d),
        s1.len() == volume(d),
        s2.len() == volume(d),
        in_bounds(d, p),
        !spec_mine(s1[linc(d, p)]),
        forall|y: Coord|
            #[trigger] in_bounds(d, y) ==> spec_mine(s2[linc(d, y)]) == (spec_mine(s1[linc(d, y)])
                || y == p),
    ensures
        mine_at(s2, d, x6, x5, x4, x3, x2, x1) == mine_at(s1, d, x6, x5, x4, x3, x2, x1) + (if (x6
            == p.0 && x5 == p.1 && x4 == p.2 && x3 == p.3 && x2 == p.4 && x1 == p.5) {
            1int
        } else {
            0int
        }),
{
    lemma_position_index_bounds(d, x6, x5, x4, x3, x2, x1);
    if 0 <= x6 < d.0 && 0 <= x5 < d.1 && 0 <= x4 < d.2 && 0 <= x3 < d.3 && 0 <= x2 < d.4 && 0 <= x1
        < d.5 {
        let y = (x6 as usize, x5 as usize, x4 as usize, x3 as usize, x2 as usize, x1 as usize);
        assert(in_bounds(d, y));
    }
}

/// Setting a mine at `p` raises the neighbor count of `c` by one exactly
/// when `c` is adjacent to `p`, and leaves it unchanged otherwise.
#[verifier::rlimit(40)]
pub proof fn lemma_nbr_count_after_mine(s1: Seq<u16>, s2: Seq<u16>, d: Dims, p: Coord, c: Coord)
    requires
        dims_pos(d),
        s1.len() == volume(d),
        s2.len() == volume(d),
        in_bounds(d, p),
        in_bounds(d, c),
        !spec_mine(s1[linc(d, p)]),
        forall|y: Coord|
            #[trigger] in_bounds(d, y) ==> spec_mine(s2[linc(d, y)]) == (spec_mine(s1[linc(d, y)])
                || y == p),
    ensures
        nbr_mine_count(s2, d, c) == nbr_mine_count(s1, d, c) + (if is_adjacent(c, p) {
            1int
        } else {
            0int
        }),
{
    lemma_mine_at_after_mine(s1, s2, d, p, c.0 - 1, c.1 as int, c.2 as int, c.3 as int, c.4 as int, c.5 as int);
    lemma_mine_at_after_mine(s1, s2, d, p, c.0 + 1, c.1 as int, c.2 as int, c.3 as int, c.4 as int, c.5 as int);
    lemma_mine_at_after_mine(s1, s2, d, p, c.0 as int, c.1 - 1, c.2 as int, c.3 as int, c.4 as int, c.5 as int);
    lemma_mine_at_after_mine(s1, s2, d, p, c.0 as int, c.1 + 1, c.2 as int, c.3 as int, c.4 as int, c.5 as int);
    lemma_mine_at_after_mine(s1, s2, d, p, c.0 as int, c.1 as int, c.2 - 1, c.3 as int, c.4 as int, c.5 as int);
    lemma_mine_at_after_mine(s1, s2, d, p, c.0 as int, c.1 as int, c.2 + 1, c.3 as int, c.4 as int, c.5 as int);
    lemma_mine_at_after_mine(s1, s2, d, p, c.0 as int, c.1 as int, c.2 as int, c.3 - 1, c.4 as int, c.5 as int);
    lemma_mine_at_after_mine(s1, s2, d, p, c.0 as int, c.1 as int, c.2 as int, c.3 + 1, c.4 as int, c.5 as int);
    lemma_mine_at_after_mine(s1, s2, d, p, c.0 as int, c.1 as int, c.2 as int, c.3 as int, c.4 - 1, c.5 as int);
    lemma_mine_at_after_mine(s1, s2, d, p, c.0 as int, c.1 as int, c.2 as int, c.3 as int, c.4 + 1, c.5 as int);
    lemma_mine_at_after_mine(s1, s2, d, p, c.0 as int, c.1 as int, c.2 as int, c.3 as int, c.4 as int, c.5 - 1);
    lemma_mine_at_after_mine(s1, s2, d, p, c.0 as int, c.1 as int, c.2 as int, c.3 as int, c.4 as int, c.5 + 1);
}

/// Helps the congruence and frame lemmas above: distinct in-bounds
/// coordinates occupy distinct linear indices.
pub proof fn lemma_distinct_positions(d: Dims, a: Coord, b: Coord)
    requires
        dims_pos(d),
        in_bounds(d, a),
        in_bounds(d, b),
        a != b,
    ensures
        linc(d, a) != linc(d, b),
{
    if linc(d, a) == linc(d, b) {
        lemma_linc_injective(d, a, b);
    }
}

} // verus!
