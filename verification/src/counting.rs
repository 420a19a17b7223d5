//! Counting cells of a given kind in the flattened grid.
//!
//! The live counters of the board (total, flagged and marked mines) are
//! stated against these counts, and the win check's full-grid scan is
//! proved against them.

use vstd::prelude::*;
use crate::cell::{spec_covered, spec_empty, spec_flagged, spec_marked, spec_mine, spec_uncovered};

verus! {

/// A class of cell codes that the board counts or scans for.
pub enum CellKind {
    /// Cells with the mine bit set.
    Mine,
    /// Cells with the mine bit clear.
    Empty,
    /// Cells in the flagged visibility state.
    Flagged,
    /// Cells in the marked visibility state.
    Marked,
    /// Cells in the covered visibility state.
    Covered,
    /// Cells in the uncovered visibility state.
    Uncovered,
}

/// Whether a cell code belongs to the class.
pub open spec fn kind_test(k: CellKind, value: u16) -> bool {
    match k {
        CellKind::Mine => spec_mine(value),
        CellKind::Empty => spec_empty(value),
        CellKind::Flagged => spec_flagged(value),
        CellKind::Marked => spec_marked(value),
        CellKind::Covered => spec_covered(value),
        CellKind::Uncovered => spec_uncovered(value),
    }
}

/// Number of cells of the class in the sequence.
pub open spec fn count_cells(s: Seq<u16>, k: CellKind) -> int
    decreases s.len(),
{
    if s.len() == 0 {
        0
    } else {
        count_cells(s.drop_last(), k) + if kind_test(k, s.last()) {
            1int
        } else {
            0int
        }
    }
}

/// A count is between zero and the sequence length.
pub proof fn lemma_count_bounds(s: Seq<u16>, k: CellKind)
    ensures
        0 <= count_cells(s, k) <= s.len(),
    decreases s.len(),
{
    if s.len() > 0 {
        lemma_count_bounds(s.drop_last(), k);
    }
}

/// Updating one cell changes a count by the difference of the two
/// membership indicators.
pub proof fn lemma_count_update(s: Seq<u16>, k: CellKind, i: int, v: u16)
    requires
        0 <= i < s.len(),
    ensures
        count_cells(s.update(i, v), k) == count_cells(s, k) - (if kind_test(k, s[i]) {
            1int
        } else {
            0int
        }) + (if kind_test(k, v) {
            1int
        } else {
            0int
        }),
    decreases s.len(),
{
    let t = s.update(i, v);
    if i == s.len() - 1 {
        assert(t.drop_last() =~= s.drop_last());
    } else {
        assert(t.drop_last() =~= s.drop_last().update(i, v));
        lemma_count_update(s.drop_last(), k, i, v);
    }
}

/// Extending a prefix by one cell adds that cell's indicator to its count.
pub proof fn lemma_count_take_step(s: Seq<u16>, k: CellKind, i: int)
    requires
        0 <= i < s.len(),
    ensures
        count_cells(s.take(i + 1), k) == count_cells(s.take(i), k) + (if kind_test(k, s[i]) {
            1int
        } else {
            0int
        }),
{
    assert(s.take(i + 1).drop_last() =~= s.take(i));
    assert(s.take(i + 1).last() == s[i]);
}

/// The whole sequence is its own full prefix.
pub proof fn lemma_count_take_all(s: Seq<u16>, k: CellKind)
    ensures
        count_cells(s.take(s.len() as int), k) == count_cells(s, k),
{
    assert(s.take(s.len() as int) =~= s);
}

/// Two sequences whose cells agree on membership in the class have the
/// same count.
pub proof fn lemma_count_pointwise(s1: Seq<u16>, s2: Seq<u16>, k: CellKind)
    requires
        s1.len() == s2.len(),
        forall|i: int| 0 <= i < s1.len() ==> kind_test(k, s1[i]) == kind_test(k, s2[i]),
    ensures
        count_cells(s1, k) == count_cells(s2, k),
    decreases s1.len(),
{
    if s1.len() > 0 {
        lemma_count_pointwise(s1.drop_last(), s2.drop_last(), k);
    }
}

/// If membership in one class implies membership in another, the first
/// count is no larger than the second.
pub proof fn lemma_count_le(s: Seq<u16>, k1: CellKind, k2: CellKind)
    requires
        forall|i: int| 0 <= i < s.len() && kind_test(k1, s[i]) ==> kind_test(k2, s[i]),
    ensures
        count_cells(s, k1) <= count_cells(s, k2),
    decreases s.len(),
{
    if s.len() > 0 {
        lemma_count_le(s.drop_last(), k1, k2);
    }
}

/// A class with no members in the sequence has count zero.
pub proof fn lemma_count_none(s: Seq<u16>, k: CellKind)
    requires
        forall|i: int| 0 <= i < s.len() ==> !kind_test(k, #[trigger] s[i]),
    ensures
        count_cells(s, k) == 0,
    decreases s.len(),
{
    if s.len() > 0 {
        lemma_count_none(s.drop_last(), k);
    }
}

/// Empty cells and mine cells partition the grid, so their counts sum
/// to the number of cells.
pub proof fn lemma_count_empty_mine(s: Seq<u16>)
    ensures
        count_cells(s, CellKind::Empty) + count_cells(s, CellKind::Mine) == s.len(),
    decreases s.len(),
{
    if s.len() > 0 {
        lemma_count_empty_mine(s.drop_last());
        crate::cell::lemma_mine_empty(s.last());
    }
}

/// When as many cells are flagged as are mines and every flagged cell is
/// a mine, the flagged cells are exactly the mines.
pub proof fn lemma_flags_exactly_mines(s: Seq<u16>)
    requires
        count_cells(s, CellKind::Flagged) == count_cells(s, CellKind::Mine),
        forall|i: int| 0 <= i < s.len() && spec_flagged(s[i]) ==> spec_mine(s[i]),
    ensures
        forall|i: int| 0 <= i < s.len() ==> (spec_flagged(s[i]) <==> spec_mine(s[i])),
    decreases s.len(),
{
    if s.len() > 0 {
        let s0 = s.drop_last();
        let v = s.last();
        lemma_count_le(s0, CellKind::Flagged, CellKind::Mine);
        if spec_flagged(v) {
            assert(spec_mine(v));
            lemma_flags_exactly_mines(s0);
        } else if spec_mine(v) {
            assert(count_cells(s0, CellKind::Flagged) == count_cells(s0, CellKind::Mine) + 1);
            assert(false);
        } else {
            lemma_flags_exactly_mines(s0);
        }
        assert forall|i: int| 0 <= i < s.len() implies (spec_flagged(s[i]) <==> spec_mine(s[i])) by {
            if i < s.len() - 1 {
                assert(s[i] == s0[i]);
            }
        }
    }
}

} // verus!
