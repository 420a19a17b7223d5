//! The board engine: grid state, mine placement, the per-cell state
//! machine, flood-fill uncovering and win/loss bookkeeping.

use vstd::prelude::*;
use crate::cell::{
    flag_clear, flag_set, mark_clear, mark_set, spec_covered, spec_empty, spec_flagged,
    spec_marked, spec_mine, spec_payload, spec_uncovered, uncover_set, MINE_CELL,
};
use crate::coords::{dims_pos, in_bounds, is_adjacent, linc, volume, Coord, Dims};
use crate::counting::{count_cells, kind_test, CellKind};
use crate::grid::{grid_cells, grid_dim, grid_dims, grid_get, grid_set, grid_zeros, Grid};
use crate::state::{all_flags_on_mines, cells_wf, nbr_mine_count};

verus! {

broadcast use vstd::seq_lib::lemma_seq_contains_after_push;

/// Stores the state of the board and handles the game logic.
pub struct Board {
    /// The dense six-dimensional grid of cell codes.
    pub board: Grid,
    /// Number of mines placed, fixed at construction.
    pub mines_total: u32,
    /// Live count of flagged cells.
    pub mines_flagged: u32,
    /// Live count of marked cells.
    pub mines_marked: u32,
    /// The cheat budget the board was created with.
    pub cheats_total: u32,
    /// The cheats still available.
    pub cheats_remaining: u32,
}

impl Board {
    /// The axis sizes of the grid.
    pub open spec fn dims(self) -> Dims {
        grid_dims(self.board)
    }

    /// The cells of the grid, flattened in row-major order.
    pub open spec fn cells(self) -> Seq<u16> {
        grid_cells(self.board)
    }

    /// The cell code at an in-bounds coordinate.
    pub open spec fn cell_at(self, c: Coord) -> u16 {
        self.cells()[linc(self.dims(), c)]
    }

    /// Well-formedness: the grid shape is positive and of bounded volume,
    /// payloads count neighboring mines, and the counters agree with the
    /// grid contents.
    pub open spec fn wf(self) -> bool {
        &&& dims_pos(self.dims())
        &&& volume(self.dims()) <= 0x7fff_ffff
        &&& self.cells().len() == volume(self.dims())
        &&& cells_wf(self.cells(), self.dims())
        &&& self.mines_total == count_cells(self.cells(), CellKind::Mine)
        &&& self.mines_flagged == count_cells(self.cells(), CellKind::Flagged)
        &&& self.mines_marked == count_cells(self.cells(), CellKind::Marked)
        &&& self.cheats_remaining <= self.cheats_total
    }

    /// Checks if a cell having value is covered.
    pub fn is_covered(value: u16) -> (r: bool)
        ensures
            r == spec_covered(value),
    {
        value & 0xc000 == 0x0000
    }

    /// Checks if a cell having value is uncovered.
    pub fn is_uncovered(value: u16) -> (r: bool)
        ensures
            r == spec_uncovered(value),
    {
        value & 0xc000 == 0xc000
    }

    /// Checks if a cell having value is flagged.
    pub fn is_flagged(value: u16) -> (r: bool)
        ensures
            r == spec_flagged(value),
    {
        value & 0xc000 == 0x4000
    }

    /// Checks if a cell having value is marked.
    pub fn is_marked(value: u16) -> (r: bool)
        ensures
            r == spec_marked(value),
    {
        value & 0xc000 == 0x8000
    }

    /// Checks if a cell having value is empty.
    pub fn is_empty(value: u16) -> (r: bool)
        ensures
            r == spec_empty(value),
    {
        value & 0x2000 == 0x0000
    }

    /// Returns the number of mines in a cell, or the number of mines in
    /// the neighboring cells if it is empty.
    pub fn mines(value: u16) -> (r: u16)
        ensures
            r == spec_payload(value),
    {
        value & 0x1fff
    }

    /// The axis sizes of the board.
    pub fn dim(&self) -> (d: Dims)
        ensures
            d == self.dims(),
    {
        grid_dim(&self.board)
    }

    /// The cell code at an in-bounds coordinate.
    pub fn cell(&self, c: Coord) -> (v: u16)
        requires
            in_bounds(self.dims(), c),
        ensures
            v == self.cell_at(c),
    {
        grid_get(&self.board, c)
    }

    /// Returns all neighbors of the given cell: exactly the in-bounds
    /// coordinates adjacent to it, each once.
    pub fn neighbors(&self, cell: Coord) -> (r: Vec<Coord>)
        requires
            dims_pos(self.dims()),
            in_bounds(self.dims(), cell),
        ensures
            r@.len() <= 12,
            forall|j: int|
                0 <= j < r@.len() ==> in_bounds(self.dims(), #[trigger] r@[j]) && is_adjacent(
                    cell,
                    r@[j],
                ),
            forall|j: int, k: int| 0 <= j < k < r@.len() ==> r@[j] != r@[k],
            forall|b: Coord|
                in_bounds(self.dims(), b) && is_adjacent(cell, b) ==> #[trigger] r@.contains(b),
    {
        let d = grid_dim(&self.board);
        crate::nbrs::neighbor_list(d, cell)
    }
}

/// Finds the coordinate of the `k`-th empty cell in row-major order.
fn find_kth_empty(g: &Grid, d: Dims, k: usize) -> (c: Coord)
    requires
        d == grid_dims(*g),
        dims_pos(d),
        volume(d) <= 0x7fff_ffff,
        grid_cells(*g).len() == volume(d),
        k < count_cells(grid_cells(*g), CellKind::Empty),
    ensures
        in_bounds(d, c),
        spec_empty(grid_cells(*g)[linc(d, c)]),
{
    let ghost s = grid_cells(*g);
    let total = crate::coords::total_cells(d);
    let mut l: usize = 0;
    let mut seen: usize = 0;
    proof {
        assert(s.take(0) =~= Seq::<u16>::empty());
    }
    while l < total
        invariant
            d == grid_dims(*g),
            dims_pos(d),
            s == grid_cells(*g),
            s.len() == volume(d),
            total == volume(d),
            0 <= l <= total,
            seen == count_cells(s.take(l as int), CellKind::Empty),
            seen <= k,
            k < count_cells(s, CellKind::Empty),
        decreases total - l,
    {
        let c = crate::coords::coord_of_index(d, l);
        let v = grid_get(g, c);
        proof {
            crate::counting::lemma_count_take_step(s, CellKind::Empty, l as int);
        }
        if v & 0x2000 == 0x0000 {
            if seen == k {
                return c;
            }
            seen = seen + 1;
        }
        l = l + 1;
    }
    proof {
        crate::counting::lemma_count_take_all(s, CellKind::Empty);
        assert(false);
    }
    (0, 0, 0, 0, 0, 0)
}

impl Board {
    /// Creates a board of the given sizes with all cells covered, places
    /// `min(mines, volume)` mines at distinct uniformly drawn coordinates,
    /// and grants the given cheat budget.
    pub fn new(size: Dims, mines: u32, cheats: u32) -> (b: Board)
        requires
            dims_pos(size),
            volume(size) <= 0x7fff_ffff,
        ensures
            b.wf(),
            b.dims() == size,
            b.mines_total == if mines <= volume(size) {
                mines as int
            } else {
                volume(size)
            },
            count_cells(b.cells(), CellKind::Mine) == b.mines_total,
            b.mines_flagged == 0,
            b.mines_marked == 0,
            b.cheats_total == cheats,
            b.cheats_remaining == cheats,
            forall|i: int| 0 <= i < b.cells().len() ==> spec_covered(#[trigger] b.cells()[i]),
            cells_wf(b.cells(), b.dims()),
    {
        let cells_total = crate::coords::total_cells(size);
        let mines_clamped: u32 = if mines as usize > cells_total {
            cells_total as u32
        } else {
            mines
        };
        let mut g = grid_zeros(size);
        proof {
            crate::cell::lemma_zero_cell();
            assert forall|c: Coord| #[trigger] in_bounds(size, c) implies {
                &&& (spec_empty(grid_cells(g)[linc(size, c)]) ==> spec_payload(
                    grid_cells(g)[linc(size, c)],
                ) == nbr_mine_count(grid_cells(g), size, c))
                &&& (spec_mine(grid_cells(g)[linc(size, c)]) ==> spec_payload(
                    grid_cells(g)[linc(size, c)],
                ) == 1)
            } by {
                crate::coords::lemma_linc_bounds(size, c);
                crate::state::lemma_nbr_count_no_mines(grid_cells(g), size, c);
            }
            crate::counting::lemma_count_none(grid_cells(g), CellKind::Mine);
        }
        let mut rng = crate::rng::new_rng();
        let mut number: u32 = mines_clamped;
        while number > 0
            invariant
                size == grid_dims(g),
                dims_pos(size),
                volume(size) <= 0x7fff_ffff,
                grid_cells(g).len() == volume(size),
                cells_wf(grid_cells(g), size),
                cells_total == volume(size),
                number <= mines_clamped,
                mines_clamped <= cells_total,
                count_cells(grid_cells(g), CellKind::Mine) == mines_clamped - number,
                forall|i: int|
                    0 <= i < grid_cells(g).len() ==> spec_covered(#[trigger] grid_cells(g)[i]),
            decreases number,
        {
            let placed: u32 = mines_clamped - number;
            let empties: usize = cells_total - placed as usize;
            proof {
                crate::counting::lemma_count_empty_mine(grid_cells(g));
            }
            let k = crate::rng::rng_below(&mut rng, empties);
            let c = find_kth_empty(&g, size, k);
            let ghost s_before = grid_cells(g);
            proof {
                crate::coords::lemma_linc_bounds(size, c);
            }
            place_mine(&mut g, size, c);
            proof {
                assert forall|i: int| 0 <= i < grid_cells(g).len() implies spec_covered(
                    #[trigger] grid_cells(g)[i],
                ) by {
                    assert(grid_cells(g)[i] & 0xc000 == s_before[i] & 0xc000);
                }
            }
            number = number - 1;
        }
        proof {
            assert forall|i: int| 0 <= i < grid_cells(g).len() implies !kind_test(
                CellKind::Flagged,
                #[trigger] grid_cells(g)[i],
            ) && !kind_test(CellKind::Marked, grid_cells(g)[i]) by {
                crate::cell::lemma_visibility_partition(grid_cells(g)[i]);
            }
            crate::counting::lemma_count_none(grid_cells(g), CellKind::Flagged);
            crate::counting::lemma_count_none(grid_cells(g), CellKind::Marked);
        }
        Board {
            board: g,
            mines_total: mines_clamped,
            mines_flagged: 0,
            mines_marked: 0,
            cheats_total: cheats,
            cheats_remaining: cheats,
        }
    }

    /// Scans the whole grid for a false flag: reports whether every
    /// flagged cell is a mine.
    fn all_flags_correct(&self) -> (r: bool)
        requires
            dims_pos(self.dims()),
            volume(self.dims()) <= 0x7fff_ffff,
            self.cells().len() == volume(self.dims()),
        ensures
            r == all_flags_on_mines(self.cells()),
    {
        let ghost s = self.cells();
        let d = grid_dim(&self.board);
        let total = crate::coords::total_cells(d);
        let mut l: usize = 0;
        while l < total
            invariant
                d == self.dims(),
                dims_pos(d),
                s == self.cells(),
                s.len() == volume(d),
                total == volume(d),
                0 <= l <= total,
                forall|i: int| 0 <= i < l && spec_flagged(#[trigger] s[i]) ==> spec_mine(s[i]),
            decreases total - l,
        {
            let c = crate::coords::coord_of_index(d, l);
            let v = grid_get(&self.board, c);
            if v & 0xc000 == 0x4000 && v & 0x2000 == 0x0000 {
                proof {
                    crate::cell::lemma_mine_empty(v);
                }
                return false;
            }
            proof {
                crate::cell::lemma_mine_empty(s[l as int]);
            }
            l = l + 1;
        }
        true
    }

    /// Flags a cell as containing a mine, returns true if all mines have
    /// been correctly identified: the flag count matches the mine total
    /// and no flag sits on an empty cell.
    pub fn flag_cell(&mut self, cell: Coord) -> (won: bool)
        requires
            old(self).wf(),
            in_bounds(old(self).dims(), cell),
        ensures
            final(self).wf(),
            final(self).dims() == old(self).dims(),
            final(self).cells() == crate::state::flag_transform(
                old(self).cells(),
                linc(old(self).dims(), cell),
            ),
            final(self).mines_total == old(self).mines_total,
            final(self).mines_marked == old(self).mines_marked,
            final(self).cheats_total == old(self).cheats_total,
            final(self).cheats_remaining == old(self).cheats_remaining,
            spec_covered(old(self).cell_at(cell)) ==> final(self).mines_flagged == old(
                self,
            ).mines_flagged + 1,
            spec_flagged(old(self).cell_at(cell)) ==> final(self).mines_flagged == old(
                self,
            ).mines_flagged - 1,
            !spec_covered(old(self).cell_at(cell)) && !spec_flagged(old(self).cell_at(cell))
                ==> *final(self) == *old(self),
            won == (final(self).mines_flagged == final(self).mines_total && all_flags_on_mines(
                final(self).cells(),
            )),
    {
        let ghost s0 = old(self).cells();
        let ghost d = old(self).dims();
        let ghost li = linc(d, cell);
        proof {
            crate::coords::lemma_linc_bounds(d, cell);
            crate::counting::lemma_count_bounds(s0, CellKind::Flagged);
        }
        let v = grid_get(&self.board, cell);
        if !(v & 0xc000 == 0x4000) && v & 0xc000 == 0x0000 {
            let w = (v | 0x4000) & 0x7fff;
            proof {
                crate::cell::lemma_flag_set(v);
                crate::cell::lemma_visibility_partition(v);
                crate::cell::lemma_visibility_partition(flag_set(v));
                crate::cell::lemma_mine_empty(v);
                crate::cell::lemma_mine_empty(flag_set(v));
            }
            grid_set(&mut self.board, cell, w);
            proof {
                lemma_single_update_wf(s0, self.cells(), d, li, v, flag_set(v));
            }
            self.mines_flagged = self.mines_flagged + 1;
        } else if v & 0xc000 == 0x4000 {
            let w = v & 0x3fff;
            proof {
                crate::cell::lemma_flag_clear(v);
                crate::cell::lemma_visibility_partition(v);
                crate::cell::lemma_visibility_partition(flag_clear(v));
                crate::cell::lemma_mine_empty(v);
                crate::cell::lemma_mine_empty(flag_clear(v));
                crate::counting::lemma_count_update(s0, CellKind::Flagged, li, flag_clear(v));
            }
            grid_set(&mut self.board, cell, w);
            proof {
                lemma_single_update_wf(s0, self.cells(), d, li, v, flag_clear(v));
            }
            self.mines_flagged = self.mines_flagged - 1;
        }

        // are all mines flagged correctly ?
        if self.mines_flagged == self.mines_total {
            self.all_flags_correct()
        } else {
            proof {
                crate::counting::lemma_count_bounds(self.cells(), CellKind::Flagged);
            }
            false
        }
    }

    /// Marks a cell as maybe containing a mine.
    pub fn mark_cell(&mut self, cell: Coord)
        requires
            old(self).wf(),
            in_bounds(old(self).dims(), cell),
        ensures
            final(self).wf(),
            final(self).dims() == old(self).dims(),
            final(self).cells() == crate::state::mark_transform(
                old(self).cells(),
                linc(old(self).dims(), cell),
            ),
            final(self).mines_total == old(self).mines_total,
            final(self).mines_flagged == old(self).mines_flagged,
            final(self).cheats_total == old(self).cheats_total,
            final(self).cheats_remaining == old(self).cheats_remaining,
            spec_covered(old(self).cell_at(cell)) ==> final(self).mines_marked == old(
                self,
            ).mines_marked + 1,
            spec_marked(old(self).cell_at(cell)) ==> final(self).mines_marked == old(
                self,
            ).mines_marked - 1,
            !spec_covered(old(self).cell_at(cell)) && !spec_marked(old(self).cell_at(cell))
                ==> *final(self) == *old(self),
    {
        let ghost s0 = old(self).cells();
        let ghost d = old(self).dims();
        let ghost li = linc(d, cell);
        proof {
            crate::coords::lemma_linc_bounds(d, cell);
            crate::counting::lemma_count_bounds(s0, CellKind::Marked);
        }
        let v = grid_get(&self.board, cell);
        if v & 0xc000 == 0x0000 {
            let w = (v | 0x8000) & 0xbfff;
            proof {
                crate::cell::lemma_mark_set(v);
                crate::cell::lemma_visibility_partition(v);
                crate::cell::lemma_visibility_partition(mark_set(v));
                crate::cell::lemma_mine_empty(v);
                crate::cell::lemma_mine_empty(mark_set(v));
            }
            grid_set(&mut self.board, cell, w);
            proof {
                lemma_single_update_wf(s0, self.cells(), d, li, v, mark_set(v));
            }
            self.mines_marked = self.mines_marked + 1;
        } else if v & 0xc000 == 0x8000 {
            let w = v & 0x3fff;
            proof {
                crate::cell::lemma_mark_clear(v);
                crate::cell::lemma_visibility_partition(v);
                crate::cell::lemma_visibility_partition(mark_clear(v));
                crate::cell::lemma_mine_empty(v);
                crate::cell::lemma_mine_empty(mark_clear(v));
                crate::counting::lemma_count_update(s0, CellKind::Marked, li, mark_clear(v));
            }
            grid_set(&mut self.board, cell, w);
            proof {
                lemma_single_update_wf(s0, self.cells(), d, li, v, mark_clear(v));
            }
            self.mines_marked = self.mines_marked - 1;
        }
    }

    /// Marks a cell as uncovered, returns true if this results in the
    /// game being lost. Uncovering a mine is a loss and changes nothing;
    /// uncovering a covered empty cell flood-fills its region; anything
    /// else is a no-op.
    pub fn uncover_cell(&mut self, cell: Coord) -> (lost: bool)
        requires
            old(self).wf(),
            in_bounds(old(self).dims(), cell),
        ensures
            final(self).wf(),
            final(self).dims() == old(self).dims(),
            final(self).mines_total == old(self).mines_total,
            final(self).mines_flagged == old(self).mines_flagged,
            final(self).mines_marked == old(self).mines_marked,
            final(self).cheats_total == old(self).cheats_total,
            final(self).cheats_remaining == old(self).cheats_remaining,
            lost == !spec_empty(old(self).cell_at(cell)),
            !spec_empty(old(self).cell_at(cell)) ==> *final(self) == *old(self),
            spec_empty(old(self).cell_at(cell)) && !spec_covered(old(self).cell_at(cell))
                ==> *final(self) == *old(self),
            spec_empty(old(self).cell_at(cell)) && spec_covered(old(self).cell_at(cell))
                ==> forall|y: Coord|
                #[trigger] in_bounds(old(self).dims(), y) ==> final(self).cell_at(y) == (
                if crate::region::in_region(old(self).cells(), old(self).dims(), cell, y) {
                    uncover_set(old(self).cell_at(y))
                } else {
                    old(self).cell_at(y)
                }),
    {
        let ghost d = old(self).dims();
        proof {
            crate::coords::lemma_linc_bounds(d, cell);
        }
        let v = grid_get(&self.board, cell);
        if !(v & 0x2000 == 0x0000) {
            true
        } else if v & 0xc000 == 0x0000 {
            let dim = grid_dim(&self.board);
            flood_uncover(&mut self.board, dim, cell);
            false
        } else {
            false
        }
    }

    /// Decrements `cheats_remaining` and reveals the contents of a cell
    /// if the budget is not exhausted: a covered empty cell is
    /// flood-uncovered; a cell that is not yet uncovered is put through
    /// the flag toggle, which may win the game; an uncovered cell leaves
    /// the board as it is. Returns true if all mines have been correctly
    /// identified.
    pub fn cheat_cell(&mut self, cell: Coord) -> (won: bool)
        requires
            old(self).wf(),
            in_bounds(old(self).dims(), cell),
        ensures
            final(self).wf(),
            final(self).dims() == old(self).dims(),
            final(self).mines_total == old(self).mines_total,
            final(self).cheats_total == old(self).cheats_total,
            old(self).cheats_remaining == 0 ==> *final(self) == *old(self) && !won,
            old(self).cheats_remaining > 0
                ==> final(self).cheats_remaining == old(self).cheats_remaining - 1,
            old(self).cheats_remaining > 0 && spec_uncovered(old(self).cell_at(cell))
                ==> final(self).cells() == old(self).cells()
                    && final(self).mines_flagged == old(self).mines_flagged
                    && final(self).mines_marked == old(self).mines_marked
                    && !won,
            old(self).cheats_remaining > 0 && spec_covered(old(self).cell_at(cell))
                && spec_empty(old(self).cell_at(cell))
                ==> !won
                    && final(self).mines_flagged == old(self).mines_flagged
                    && final(self).mines_marked == old(self).mines_marked
                    && (forall|y: Coord| #[trigger] in_bounds(old(self).dims(), y)
                        ==> final(self).cell_at(y) == (
                            if crate::region::in_region(old(self).cells(), old(self).dims(), cell, y) {
                                uncover_set(old(self).cell_at(y))
                            } else {
                                old(self).cell_at(y)
                            })),
            old(self).cheats_remaining > 0 && !spec_uncovered(old(self).cell_at(cell))
                && !(spec_covered(old(self).cell_at(cell)) && spec_empty(old(self).cell_at(cell)))
                ==> final(self).cells() == crate::state::flag_transform(
                    old(self).cells(),
                    linc(old(self).dims(), cell),
                )
                    && final(self).mines_marked == old(self).mines_marked
                    && won == (final(self).mines_flagged == final(self).mines_total
                        && all_flags_on_mines(final(self).cells())),
    {
        if self.cheats_remaining == 0 {
            return false;
        }

        let ghost d = old(self).dims();
        proof {
            crate::coords::lemma_linc_bounds(d, cell);
        }
        let v = grid_get(&self.board, cell);

        if v & 0x2000 == 0x0000 && v & 0xc000 == 0x0000 {
            self.cheats_remaining = self.cheats_remaining - 1;
            let dim = grid_dim(&self.board);
            flood_uncover(&mut self.board, dim, cell);
            false
        } else if !(v & 0xc000 == 0xc000) {
            self.cheats_remaining = self.cheats_remaining - 1;
            proof {
                crate::cell::lemma_visibility_partition(v);
            }
            self.flag_cell(cell)
        } else {
            self.cheats_remaining = self.cheats_remaining - 1;
            false
        }
    }

    /// Creates a board with mines at exactly the given distinct
    /// coordinates, for reproducible play and testing.
    pub fn with_mines(size: Dims, mine_list: &Vec<Coord>, cheats: u32) -> (b: Board)
        requires
            dims_pos(size),
            volume(size) <= 0x7fff_ffff,
            mine_list@.len() <= volume(size),
            forall|j: int| 0 <= j < mine_list@.len() ==> in_bounds(size, #[trigger] mine_list@[j]),
            forall|j: int, k: int|
                0 <= j < k < mine_list@.len() ==> mine_list@[j] != mine_list@[k],
        ensures
            b.wf(),
            b.dims() == size,
            b.mines_total == mine_list@.len(),
            b.mines_flagged == 0,
            b.mines_marked == 0,
            b.cheats_total == cheats,
            b.cheats_remaining == cheats,
            forall|i: int| 0 <= i < b.cells().len() ==> spec_covered(#[trigger] b.cells()[i]),
            forall|y: Coord|
                #[trigger] in_bounds(size, y) ==> (spec_mine(b.cells()[linc(size, y)])
                    <==> mine_list@.contains(y)),
            cells_wf(b.cells(), b.dims()),
    {
        let mut g = grid_zeros(size);
        proof {
            crate::cell::lemma_zero_cell();
            assert forall|c: Coord| #[trigger] in_bounds(size, c) implies {
                &&& (spec_empty(grid_cells(g)[linc(size, c)]) ==> spec_payload(
                    grid_cells(g)[linc(size, c)],
                ) == nbr_mine_count(grid_cells(g), size, c))
                &&& (spec_mine(grid_cells(g)[linc(size, c)]) ==> spec_payload(
                    grid_cells(g)[linc(size, c)],
                ) == 1)
            } by {
                crate::coords::lemma_linc_bounds(size, c);
                crate::state::lemma_nbr_count_no_mines(grid_cells(g), size, c);
            }
            crate::counting::lemma_count_none(grid_cells(g), CellKind::Mine);
            assert(mine_list@.take(0) =~= Seq::<Coord>::empty());
            assert forall|y: Coord| #[trigger] in_bounds(size, y) implies (spec_mine(
                grid_cells(g)[linc(size, y)],
            ) <==> mine_list@.take(0).contains(y)) by {
                crate::coords::lemma_linc_bounds(size, y);
            }
        }
        let mut j: usize = 0;
        while j < mine_list.len()
            invariant
                size == grid_dims(g),
                dims_pos(size),
                volume(size) <= 0x7fff_ffff,
                grid_cells(g).len() == volume(size),
                cells_wf(grid_cells(g), size),
                0 <= j <= mine_list@.len(),
                mine_list@.len() <= volume(size),
                forall|jj: int|
                    0 <= jj < mine_list@.len() ==> in_bounds(size, #[trigger] mine_list@[jj]),
                forall|jj: int, kk: int|
                    0 <= jj < kk < mine_list@.len() ==> mine_list@[jj] != mine_list@[kk],
                count_cells(grid_cells(g), CellKind::Mine) == j,
                forall|i: int|
                    0 <= i < grid_cells(g).len() ==> spec_covered(#[trigger] grid_cells(g)[i]),
                forall|y: Coord|
                    #[trigger] in_bounds(size, y) ==> (spec_mine(grid_cells(g)[linc(size, y)])
                        <==> mine_list@.take(j as int).contains(y)),
            decreases mine_list@.len() - j,
        {
            let c = mine_list[j];
            let ghost s_before = grid_cells(g);
            proof {
                crate::coords::lemma_linc_bounds(size, c);
                assert(!mine_list@.take(j as int).contains(c)) by {
                    if mine_list@.take(j as int).contains(c) {
                        let jj = choose|jj: int|
                            0 <= jj < j && mine_list@.take(j as int)[jj] == c;
                        assert(mine_list@[jj] == c && mine_list@[j as int] == c);
                    }
                }
                crate::cell::lemma_mine_empty(s_before[linc(size, c)]);
            }
            place_mine(&mut g, size, c);
            proof {
                assert forall|i: int| 0 <= i < grid_cells(g).len() implies spec_covered(
                    #[trigger] grid_cells(g)[i],
                ) by {
                    assert(grid_cells(g)[i] & 0xc000 == s_before[i] & 0xc000);
                }
                assert(mine_list@.take(j + 1) =~= mine_list@.take(j as int).push(
                    mine_list@[j as int],
                ));
                assert forall|y: Coord| #[trigger] in_bounds(size, y) implies (spec_mine(
                    grid_cells(g)[linc(size, y)],
                ) <==> mine_list@.take(j + 1).contains(y)) by {
                    assert(spec_mine(grid_cells(g)[linc(size, y)]) == (spec_mine(
                        s_before[linc(size, y)],
                    ) || y == c));
                }
            }
            j = j + 1;
        }
        proof {
            assert(mine_list@.take(mine_list@.len() as int) =~= mine_list@);
            assert forall|i: int| 0 <= i < grid_cells(g).len() implies !kind_test(
                CellKind::Flagged,
                #[trigger] grid_cells(g)[i],
            ) && !kind_test(CellKind::Marked, grid_cells(g)[i]) by {
                crate::cell::lemma_visibility_partition(grid_cells(g)[i]);
            }
            crate::counting::lemma_count_none(grid_cells(g), CellKind::Flagged);
            crate::counting::lemma_count_none(grid_cells(g), CellKind::Marked);
        }
        Board {
            board: g,
            mines_total: mine_list.len() as u32,
            mines_flagged: 0,
            mines_marked: 0,
            cheats_total: cheats,
            cheats_remaining: cheats,
        }
    }
}

/// The win condition reported by the flag and cheat operations holds
/// exactly when the flagged cells are the mines: as many flags as mines
/// with none misplaced means the two sets coincide, and conversely.
pub proof fn lemma_win_characterization(b: Board)
    requires
        b.wf(),
    ensures
        (b.mines_flagged == b.mines_total && all_flags_on_mines(b.cells())) <==> (forall|i: int|
            0 <= i < b.cells().len() ==> (spec_flagged(#[trigger] b.cells()[i]) <==> spec_mine(
                b.cells()[i],
            ))),
{
    let s = b.cells();
    if b.mines_flagged == b.mines_total && all_flags_on_mines(s) {
        crate::counting::lemma_flags_exactly_mines(s);
    }
    if forall|i: int|
        0 <= i < s.len() ==> (spec_flagged(#[trigger] s[i]) <==> spec_mine(s[i])) {
        crate::counting::lemma_count_le(s, CellKind::Flagged, CellKind::Mine);
        crate::counting::lemma_count_le(s, CellKind::Mine, CellKind::Flagged);
    }
}

/// Mid-flood state of one cell: either untouched, or a covered region
/// cell that has been uncovered.
spec fn flood_mid(s0: Seq<u16>, s: Seq<u16>, d: Dims, start: Coord, y: Coord) -> bool {
    ||| s[linc(d, y)] == s0[linc(d, y)]
    ||| (crate::region::in_region(s0, d, start, y) && spec_covered(s0[linc(d, y)]) && s[linc(d, y)]
        == uncover_set(s0[linc(d, y)]))
}

/// An element of a nonempty sequence is its last element or an element
/// of the sequence without it.
proof fn lemma_contains_drop_last(w: Seq<Coord>, x: Coord)
    requires
        w.len() > 0,
        w.contains(x),
    ensures
        w.drop_last().contains(x) || x == w.last(),
{
    let j = choose|j: int| 0 <= j < w.len() && w[j] == x;
    if j < w.len() - 1 {
        assert(w.drop_last()[j] == x);
    }
}

/// A covered cell changes when uncovered.
proof fn lemma_uncover_changes(v: u16)
    requires
        spec_covered(v),
    ensures
        uncover_set(v) != v,
        spec_uncovered(uncover_set(v)),
        !spec_covered(uncover_set(v)),
        !spec_flagged(uncover_set(v)) && !spec_flagged(v),
        !spec_marked(uncover_set(v)) && !spec_marked(v),
{
    crate::cell::lemma_uncover_set(v);
    crate::cell::lemma_visibility_partition(v);
    crate::cell::lemma_visibility_partition(uncover_set(v));
}

/// Uncovers `start`, which must be covered and empty, and every cell of
/// its flood-fill region: the connected zero-payload component around it
/// plus that component's border, stopping at flagged, marked and
/// already-uncovered cells.
#[verifier::rlimit(100)]
#[verifier::spinoff_prover]
fn flood_uncover(g: &mut Grid, d: Dims, start: Coord)
    requires
        d == grid_dims(*old(g)),
        dims_pos(d),
        volume(d) <= 0x7fff_ffff,
        grid_cells(*old(g)).len() == volume(d),
        cells_wf(grid_cells(*old(g)), d),
        in_bounds(d, start),
        spec_covered(grid_cells(*old(g))[linc(d, start)]),
        spec_empty(grid_cells(*old(g))[linc(d, start)]),
    ensures
        grid_dims(*final(g)) == d,
        grid_cells(*final(g)).len() == volume(d),
        cells_wf(grid_cells(*final(g)), d),
        forall|y: Coord|
            #[trigger] in_bounds(d, y) ==> grid_cells(*final(g))[linc(d, y)] == (
            if crate::region::in_region(grid_cells(*old(g)), d, start, y) {
                uncover_set(grid_cells(*old(g))[linc(d, y)])
            } else {
                grid_cells(*old(g))[linc(d, y)]
            }),
        count_cells(grid_cells(*final(g)), CellKind::Mine) == count_cells(
            grid_cells(*old(g)),
            CellKind::Mine,
        ),
        count_cells(grid_cells(*final(g)), CellKind::Flagged) == count_cells(
            grid_cells(*old(g)),
            CellKind::Flagged,
        ),
        count_cells(grid_cells(*final(g)), CellKind::Marked) == count_cells(
            grid_cells(*old(g)),
            CellKind::Marked,
        ),
{
    let ghost s0 = grid_cells(*g);
    let mut work: Vec<Coord> = Vec::new();
    work.push(start);
    proof {
        crate::coords::lemma_linc_bounds(d, start);
        crate::region::lemma_region_start(s0, d, start);
        crate::counting::lemma_count_bounds(s0, CellKind::Covered);
        assert(work@[0] == start);
    }
    while work.len() > 0
        invariant
            d == grid_dims(*g),
            dims_pos(d),
            volume(d) <= 0x7fff_ffff,
            s0.len() == volume(d),
            grid_cells(*g).len() == volume(d),
            cells_wf(s0, d),
            in_bounds(d, start),
            spec_covered(s0[linc(d, start)]),
            spec_empty(s0[linc(d, start)]),
            forall|j: int|
                0 <= j < work@.len() ==> in_bounds(d, #[trigger] work@[j])
                    && crate::region::in_region(s0, d, start, work@[j]),
            forall|y: Coord|
                #[trigger] in_bounds(d, y) ==> flood_mid(s0, grid_cells(*g), d, start, y),
            grid_cells(*g)[linc(d, start)] != s0[linc(d, start)] || work@.contains(start),
            forall|a: Coord, b: Coord|
                in_bounds(d, a) && in_bounds(d, b) && grid_cells(*g)[linc(d, a)] != s0[linc(d, a)]
                    && spec_payload(s0[linc(d, a)]) == 0 && #[trigger] is_adjacent(a, b)
                    && spec_covered(s0[linc(d, b)]) ==> (grid_cells(*g)[linc(d, b)] != s0[linc(
                    d,
                    b,
                )] || work@.contains(b)),
        decreases 13 * count_cells(grid_cells(*g), CellKind::Covered) + work@.len(),
    {
        let ghost work_pre = work@;
        let ghost s_pre = grid_cells(*g);
        let c = work.pop().unwrap();
        proof {
            assert(c == work_pre.last());
            assert(work@ =~= work_pre.drop_last());
            crate::coords::lemma_linc_bounds(d, c);
            crate::counting::lemma_count_bounds(grid_cells(*g), CellKind::Covered);
        }
        let v = grid_get(g, c);
        if v & 0xc000 == 0x0000 {
            proof {
                // A cell that is covered now is untouched: an uncovered
                // rewrite cannot be covered.
                if grid_cells(*g)[linc(d, c)] != s0[linc(d, c)] {
                    lemma_uncover_changes(s0[linc(d, c)]);
                }
                assert(v == s0[linc(d, c)]);
                lemma_uncover_changes(v);
                crate::cell::lemma_uncover_set(v);
                crate::counting::lemma_count_update(
                    grid_cells(*g),
                    CellKind::Covered,
                    linc(d, c),
                    uncover_set(v),
                );
            }
            grid_set(g, c, v | 0xc000);
            proof {
                crate::counting::lemma_count_bounds(grid_cells(*g), CellKind::Covered);
                assert forall|y: Coord| #[trigger] in_bounds(d, y) implies flood_mid(
                    s0,
                    grid_cells(*g),
                    d,
                    start,
                    y,
                ) by {
                    crate::coords::lemma_linc_bounds(d, y);
                    if y != c {
                        crate::state::lemma_distinct_positions(d, y, c);
                    }
                }
                // The start cell stays accounted for after the pop.
                crate::coords::lemma_linc_bounds(d, start);
                if grid_cells(*g)[linc(d, start)] == s0[linc(d, start)] {
                    assert(start != c);
                    crate::state::lemma_distinct_positions(d, start, c);
                    assert(s_pre[linc(d, start)] == s0[linc(d, start)]);
                    lemma_contains_drop_last(work_pre, start);
                }
                // The closure property for already-processed cells other
                // than `c` survives the pop and the uncover of `c`.
                assert forall|a: Coord, b: Coord|
                    in_bounds(d, a) && in_bounds(d, b) && grid_cells(*g)[linc(d, a)] != s0[linc(
                        d,
                        a,
                    )] && spec_payload(s0[linc(d, a)]) == 0 && #[trigger] is_adjacent(a, b)
                        && spec_covered(s0[linc(d, b)]) && a != c implies (grid_cells(*g)[linc(
                    d,
                    b,
                )] != s0[linc(d, b)] || work@.contains(b)) by {
                    crate::coords::lemma_linc_bounds(d, a);
                    crate::coords::lemma_linc_bounds(d, b);
                    crate::state::lemma_distinct_positions(d, a, c);
                    if grid_cells(*g)[linc(d, b)] == s0[linc(d, b)] {
                        assert(b != c);
                        crate::state::lemma_distinct_positions(d, b, c);
                        assert(s_pre[linc(d, b)] == s0[linc(d, b)]);
                        assert(s_pre[linc(d, a)] != s0[linc(d, a)]);
                        assert(work_pre.contains(b));
                        lemma_contains_drop_last(work_pre, b);
                    }
                }
            }
            if v & 0x1fff == 0x0000 {
                let nbrs = crate::nbrs::neighbor_list(d, c);
                let ghost s_now = grid_cells(*g);
                let mut i: usize = 0;
                while i < nbrs.len()
                    invariant
                        d == grid_dims(*g),
                        dims_pos(d),
                        s0.len() == volume(d),
                        grid_cells(*g) == s_now,
                        s_now.len() == volume(d),
                        cells_wf(s0, d),
                        in_bounds(d, start),
                        spec_covered(s0[linc(d, start)]),
                        spec_empty(s0[linc(d, start)]),
                        0 <= i <= nbrs@.len(),
                        in_bounds(d, c),
                        crate::region::in_region(s0, d, start, c),
                        spec_payload(s0[linc(d, c)]) == 0,
                        nbrs@.len() <= 12,
                        work@.len() <= work_pre.len() - 1 + i,
                        forall|j: int|
                            0 <= j < nbrs@.len() ==> in_bounds(d, #[trigger] nbrs@[j])
                                && is_adjacent(c, nbrs@[j]),
                        forall|b: Coord|
                            in_bounds(d, b) && is_adjacent(c, b) ==> #[trigger] nbrs@.contains(b),
                        forall|j: int|
                            0 <= j < work@.len() ==> in_bounds(d, #[trigger] work@[j])
                                && crate::region::in_region(s0, d, start, work@[j]),
                        forall|y: Coord|
                            #[trigger] in_bounds(d, y) ==> flood_mid(s0, grid_cells(*g), d, start, y),
                        grid_cells(*g)[linc(d, start)] != s0[linc(d, start)] || work@.contains(
                            start,
                        ),
                        forall|a: Coord, b: Coord|
                            in_bounds(d, a) && in_bounds(d, b) && grid_cells(*g)[linc(d, a)]
                                != s0[linc(d, a)] && spec_payload(s0[linc(d, a)]) == 0
                                && #[trigger] is_adjacent(a, b) && spec_covered(s0[linc(d, b)])
                                && a != c ==> (grid_cells(*g)[linc(d, b)] != s0[linc(d, b)]
                                || work@.contains(b)),
                        forall|ii: int|
                            0 <= ii < i && spec_covered(s0[linc(d, #[trigger] nbrs@[ii])]) ==> (
                            grid_cells(*g)[linc(d, nbrs@[ii])] != s0[linc(d, nbrs@[ii])]
                                || work@.contains(nbrs@[ii])),
                    decreases nbrs@.len() - i,
                {
                    let n = nbrs[i];
                    proof {
                        crate::coords::lemma_linc_bounds(d, n);
                    }
                    let w = grid_get(g, n);
                    if w & 0xc000 == 0x0000 {
                        proof {
                            if grid_cells(*g)[linc(d, n)] != s0[linc(d, n)] {
                                lemma_uncover_changes(s0[linc(d, n)]);
                            }
                            assert(spec_covered(s0[linc(d, n)]));
                            crate::region::lemma_region_extend(s0, d, start, c, n);
                        }
                        work.push(n);
                    }
                    i = i + 1;
                }
                proof {
                    // Every covered neighbor of `c` is now queued or done,
                    // so the closure property holds for `c` as well.
                    assert forall|a: Coord, b: Coord|
                        in_bounds(d, a) && in_bounds(d, b) && grid_cells(*g)[linc(d, a)] != s0[linc(
                            d,
                            a,
                        )] && spec_payload(s0[linc(d, a)]) == 0 && #[trigger] is_adjacent(a, b)
                            && spec_covered(s0[linc(d, b)]) implies (grid_cells(*g)[linc(d, b)]
                        != s0[linc(d, b)] || work@.contains(b)) by {
                        if a == c {
                            assert(nbrs@.contains(b));
                            let ii = choose|ii: int| 0 <= ii < nbrs@.len() && nbrs@[ii] == b;
                        }
                    }
                }
            } else {
                proof {
                    // A processed nonzero-payload cell expands to nothing:
                    // the closure property needs no new queue entries.
                    assert forall|a: Coord, b: Coord|
                        in_bounds(d, a) && in_bounds(d, b) && grid_cells(*g)[linc(d, a)] != s0[linc(
                            d,
                            a,
                        )] && spec_payload(s0[linc(d, a)]) == 0 && #[trigger] is_adjacent(a, b)
                            && spec_covered(s0[linc(d, b)]) implies (grid_cells(*g)[linc(d, b)]
                        != s0[linc(d, b)] || work@.contains(b)) by {
                        if a == c {
                            assert(spec_payload(s0[linc(d, c)]) == spec_payload(v));
                            assert(false);
                        }
                    }
                }
            }
        } else {
            proof {
                // The popped cell was already handled; dropping this
                // queue copy keeps every property.
                crate::coords::lemma_linc_bounds(d, start);
                if grid_cells(*g)[linc(d, start)] == s0[linc(d, start)] {
                    lemma_contains_drop_last(work_pre, start);
                    if start == c {
                        assert(v == s0[linc(d, c)]);
                        assert(false);
                    }
                }
                assert forall|a: Coord, b: Coord|
                    in_bounds(d, a) && in_bounds(d, b) && grid_cells(*g)[linc(d, a)] != s0[linc(
                        d,
                        a,
                    )] && spec_payload(s0[linc(d, a)]) == 0 && #[trigger] is_adjacent(a, b)
                        && spec_covered(s0[linc(d, b)]) implies (grid_cells(*g)[linc(d, b)]
                    != s0[linc(d, b)] || work@.contains(b)) by {
                    if !(grid_cells(*g)[linc(d, b)] != s0[linc(d, b)]) {
                        lemma_contains_drop_last(work_pre, b);
                        if b == c {
                            assert(v == s0[linc(d, c)]);
                            assert(false);
                        }
                    }
                }
            }
        }
    }
    proof {
        let s2 = grid_cells(*g);
        // The queue is empty, so the changed set is closed and holds the
        // whole region.
        assert forall|y: Coord|
            #[trigger] in_bounds(d, y) implies s2[linc(d, y)] == (
        if crate::region::in_region(s0, d, start, y) {
            uncover_set(s0[linc(d, y)])
        } else {
            s0[linc(d, y)]
        }) by {
            if crate::region::in_region(s0, d, start, y) {
                crate::region::lemma_region_processed(s0, s2, d, start, y);
            }
        }
        // Content is untouched cell for cell, so well-formedness and all
        // three counters carry over.
        assert forall|i: int|
            0 <= i < s0.len() implies spec_mine(#[trigger] s2[i]) == spec_mine(s0[i])
            && spec_payload(s2[i]) == spec_payload(s0[i]) && spec_empty(s2[i]) == spec_empty(s0[i])
            && kind_test(CellKind::Flagged, s2[i]) == kind_test(CellKind::Flagged, s0[i])
            && kind_test(CellKind::Marked, s2[i]) == kind_test(CellKind::Marked, s0[i])
            && kind_test(CellKind::Mine, s2[i]) == kind_test(CellKind::Mine, s0[i]) by {
            crate::coords::lemma_linc_coord_at(d, i);
            let y = crate::coords::coord_at(d, i);
            assert(flood_mid(s0, s2, d, start, y));
            if s2[i] != s0[i] {
                crate::cell::lemma_uncover_set(s0[i]);
                lemma_uncover_changes(s0[i]);
            }
        }
        crate::state::lemma_cells_wf_same_content(s0, s2, d);
        crate::counting::lemma_count_pointwise(s2, s0, CellKind::Mine);
        crate::counting::lemma_count_pointwise(s2, s0, CellKind::Flagged);
        crate::counting::lemma_count_pointwise(s2, s0, CellKind::Marked);
    }
}

/// A single-cell rewrite that keeps the mine bit, payload and emptiness
/// of the cell preserves well-formedness and the mine count, and moves
/// the flagged and marked counts by the indicator difference.
proof fn lemma_single_update_wf(s0: Seq<u16>, s2: Seq<u16>, d: Dims, li: int, v: u16, w: u16)
    requires
        dims_pos(d),
        s0.len() == volume(d),
        cells_wf(s0, d),
        0 <= li < s0.len(),
        v == s0[li],
        s2 == s0.update(li, w),
        spec_mine(w) == spec_mine(v),
        spec_payload(w) == spec_payload(v),
        spec_empty(w) == spec_empty(v),
    ensures
        s2.len() == volume(d),
        cells_wf(s2, d),
        count_cells(s2, CellKind::Mine) == count_cells(s0, CellKind::Mine),
        count_cells(s2, CellKind::Flagged) == count_cells(s0, CellKind::Flagged) - (if spec_flagged(
            v,
        ) {
            1int
        } else {
            0int
        }) + (if spec_flagged(w) {
            1int
        } else {
            0int
        }),
        count_cells(s2, CellKind::Marked) == count_cells(s0, CellKind::Marked) - (if spec_marked(v) {
            1int
        } else {
            0int
        }) + (if spec_marked(w) {
            1int
        } else {
            0int
        }),
        0 <= count_cells(s2, CellKind::Flagged) <= s2.len(),
        0 <= count_cells(s2, CellKind::Marked) <= s2.len(),
{
    assert forall|i: int|
        0 <= i < s0.len() implies spec_mine(#[trigger] s2[i]) == spec_mine(s0[i]) && spec_payload(
        s2[i],
    ) == spec_payload(s0[i]) && spec_empty(s2[i]) == spec_empty(s0[i]) by {
        if i != li {
            assert(s2[i] == s0[i]);
        }
    }
    crate::state::lemma_cells_wf_same_content(s0, s2, d);
    crate::counting::lemma_count_update(s0, CellKind::Mine, li, w);
    crate::counting::lemma_count_update(s0, CellKind::Flagged, li, w);
    crate::counting::lemma_count_update(s0, CellKind::Marked, li, w);
    crate::counting::lemma_count_bounds(s2, CellKind::Flagged);
    crate::counting::lemma_count_bounds(s2, CellKind::Marked);
}

/// The cell code at `y` after a mine has been planted at `p` and the
/// payloads of the already-processed neighbors in `done` have been raised.
spec fn placed_cell(s0: Seq<u16>, d: Dims, p: Coord, done: Seq<Coord>, y: Coord) -> u16 {
    if y == p {
        MINE_CELL
    } else if done.contains(y) && spec_empty(s0[linc(d, y)]) {
        (s0[linc(d, y)] + 1) as u16
    } else {
        s0[linc(d, y)]
    }
}

/// Collects what planting one mine does to the whole grid: the mine bit
/// appears exactly at `p`, visibility is untouched, empty neighbors'
/// payloads keep counting adjacent mines, and the mine count rises by one.
#[verifier::rlimit(100)]
#[verifier::spinoff_prover]
proof fn lemma_place_finish(s0: Seq<u16>, s2: Seq<u16>, d: Dims, p: Coord, nb: Seq<Coord>)
    requires
        dims_pos(d),
        s0.len() == volume(d),
        s2.len() == volume(d),
        cells_wf(s0, d),
        in_bounds(d, p),
        spec_covered(s0[linc(d, p)]),
        spec_empty(s0[linc(d, p)]),
        forall|j: int| 0 <= j < nb.len() ==> in_bounds(d, #[trigger] nb[j]) && is_adjacent(p, nb[j]),
        forall|b: Coord| in_bounds(d, b) && is_adjacent(p, b) ==> #[trigger] nb.contains(b),
        forall|y: Coord|
            #[trigger] in_bounds(d, y) ==> s2[linc(d, y)] == placed_cell(s0, d, p, nb, y),
    ensures
        cells_wf(s2, d),
        forall|y: Coord|
            #[trigger] in_bounds(d, y) ==> spec_mine(s2[linc(d, y)]) == (spec_mine(s0[linc(d, y)])
                || y == p),
        forall|i: int| 0 <= i < s0.len() ==> #[trigger] s2[i] & 0xc000 == s0[i] & 0xc000,
        count_cells(s2, CellKind::Mine) == count_cells(s0, CellKind::Mine) + 1,
        count_cells(s2, CellKind::Flagged) == count_cells(s0, CellKind::Flagged),
        count_cells(s2, CellKind::Marked) == count_cells(s0, CellKind::Marked),
{
    crate::cell::lemma_mine_cell();
    // Payload bounds for every empty cell, so increments stay in range.
    assert forall|y: Coord| #[trigger] in_bounds(d, y) && spec_empty(s0[linc(d, y)]) implies
        spec_payload(s0[linc(d, y)]) <= 12 by {
        crate::state::lemma_nbr_count_range(s0, d, y);
    }
    // The mine bits of the new grid.
    assert forall|y: Coord| #[trigger] in_bounds(d, y) implies spec_mine(s2[linc(d, y)]) == (
    spec_mine(s0[linc(d, y)]) || y == p) by {
        if y != p {
            if nb.contains(y) && spec_empty(s0[linc(d, y)]) {
                crate::cell::lemma_payload_increment(s0[linc(d, y)]);
                crate::cell::lemma_mine_empty(s0[linc(d, y)]);
                crate::cell::lemma_mine_empty(s2[linc(d, y)]);
            }
        }
    }
    // Visibility bits are untouched, stated over linear indices.
    assert forall|i: int| 0 <= i < s0.len() implies #[trigger] s2[i] & 0xc000 == s0[i]
        & 0xc000 by {
        crate::coords::lemma_linc_coord_at(d, i);
        let y = crate::coords::coord_at(d, i);
        assert(s2[linc(d, y)] == placed_cell(s0, d, p, nb, y));
        if y == p {
            assert(s2[i] == MINE_CELL);
            assert(spec_covered(s0[linc(d, y)]) && spec_covered(MINE_CELL));
        } else if nb.contains(y) && spec_empty(s0[linc(d, y)]) {
            crate::cell::lemma_payload_increment(s0[linc(d, y)]);
        }
    }
    // Counter changes, via pointwise comparison with a single update.
    let lp = linc(d, p);
    crate::coords::lemma_linc_bounds(d, p);
    let s1 = s0.update(lp, MINE_CELL);
    crate::counting::lemma_count_update(s0, CellKind::Mine, lp, MINE_CELL);
    crate::cell::lemma_mine_empty(s0[lp]);
    assert forall|i: int| 0 <= i < s2.len() implies kind_test(CellKind::Mine, #[trigger] s2[i])
        == kind_test(CellKind::Mine, s1[i]) by {
        crate::coords::lemma_linc_coord_at(d, i);
        let y = crate::coords::coord_at(d, i);
        if y == p {
            crate::coords::lemma_coord_at_linc(d, p);
        } else {
            crate::state::lemma_distinct_positions(d, y, p);
        }
    }
    crate::counting::lemma_count_pointwise(s2, s1, CellKind::Mine);
    assert forall|i: int| 0 <= i < s2.len() implies kind_test(CellKind::Flagged, #[trigger] s2[i])
        == kind_test(CellKind::Flagged, s0[i]) && kind_test(CellKind::Marked, s2[i]) == kind_test(
        CellKind::Marked,
        s0[i],
    ) by {
        assert(s2[i] & 0xc000 == s0[i] & 0xc000);
    }
    crate::counting::lemma_count_pointwise(s2, s0, CellKind::Flagged);
    crate::counting::lemma_count_pointwise(s2, s0, CellKind::Marked);
    // The payload invariant for the new grid.
    assert forall|c: Coord| #[trigger] in_bounds(d, c) implies {
        &&& (spec_empty(s2[linc(d, c)]) ==> spec_payload(s2[linc(d, c)]) == nbr_mine_count(
            s2,
            d,
            c,
        ))
        &&& (spec_mine(s2[linc(d, c)]) ==> spec_payload(s2[linc(d, c)]) == 1)
    } by {
        crate::state::lemma_nbr_count_after_mine(s0, s2, d, p, c);
        crate::coords::lemma_adjacent_symmetric(c, p);
        if c == p {
        } else if nb.contains(c) && spec_empty(s0[linc(d, c)]) {
            crate::cell::lemma_payload_increment(s0[linc(d, c)]);
            assert(is_adjacent(p, c));
        } else {
            if spec_empty(s0[linc(d, c)]) && is_adjacent(c, p) {
                assert(nb.contains(c));
            }
        }
    }
}

/// Plants a mine at `p`, which must be covered and empty, and raises the
/// payload of every empty neighbor by one.
fn place_mine(g: &mut Grid, d: Dims, p: Coord)
    requires
        d == grid_dims(*old(g)),
        dims_pos(d),
        volume(d) <= 0x7fff_ffff,
        grid_cells(*old(g)).len() == volume(d),
        cells_wf(grid_cells(*old(g)), d),
        in_bounds(d, p),
        spec_covered(grid_cells(*old(g))[linc(d, p)]),
        spec_empty(grid_cells(*old(g))[linc(d, p)]),
    ensures
        grid_dims(*final(g)) == d,
        grid_cells(*final(g)).len() == volume(d),
        cells_wf(grid_cells(*final(g)), d),
        forall|y: Coord|
            #[trigger] in_bounds(d, y) ==> spec_mine(grid_cells(*final(g))[linc(d, y)]) == (
            spec_mine(grid_cells(*old(g))[linc(d, y)]) || y == p),
        forall|i: int|
            0 <= i < volume(d) ==> #[trigger] grid_cells(*final(g))[i] & 0xc000 == grid_cells(
                *old(g),
            )[i] & 0xc000,
        count_cells(grid_cells(*final(g)), CellKind::Mine) == count_cells(
            grid_cells(*old(g)),
            CellKind::Mine,
        ) + 1,
        count_cells(grid_cells(*final(g)), CellKind::Flagged) == count_cells(
            grid_cells(*old(g)),
            CellKind::Flagged,
        ),
        count_cells(grid_cells(*final(g)), CellKind::Marked) == count_cells(
            grid_cells(*old(g)),
            CellKind::Marked,
        ),
{
    let ghost s0 = grid_cells(*g);
    proof {
        crate::coords::lemma_linc_bounds(d, p);
    }
    grid_set(g, p, MINE_CELL);
    let nbrs = crate::nbrs::neighbor_list(d, p);
    proof {
        assert(nbrs@.take(0) =~= Seq::<Coord>::empty());
        assert forall|y: Coord| #[trigger] in_bounds(d, y) implies grid_cells(*g)[linc(d, y)]
            == placed_cell(s0, d, p, nbrs@.take(0), y) by {
            crate::coords::lemma_linc_bounds(d, y);
            if y != p {
                crate::state::lemma_distinct_positions(d, y, p);
            }
        }
    }
    let mut idx: usize = 0;
    while idx < nbrs.len()
        invariant
            0 <= idx <= nbrs@.len(),
            d == grid_dims(*g),
            dims_pos(d),
            volume(d) <= 0x7fff_ffff,
            s0.len() == volume(d),
            grid_cells(*g).len() == volume(d),
            cells_wf(s0, d),
            in_bounds(d, p),
            spec_covered(s0[linc(d, p)]),
            spec_empty(s0[linc(d, p)]),
            nbrs@.len() <= 12,
            forall|j: int|
                0 <= j < nbrs@.len() ==> in_bounds(d, #[trigger] nbrs@[j]) && is_adjacent(
                    p,
                    nbrs@[j],
                ),
            forall|j: int, k: int| 0 <= j < k < nbrs@.len() ==> nbrs@[j] != nbrs@[k],
            forall|y: Coord|
                #[trigger] in_bounds(d, y) ==> grid_cells(*g)[linc(d, y)] == placed_cell(
                    s0,
                    d,
                    p,
                    nbrs@.take(idx as int),
                    y,
                ),
        decreases nbrs@.len() - idx,
    {
        let n = nbrs[idx];
        proof {
            crate::coords::lemma_linc_bounds(d, n);
            assert(n != p);
            assert(!nbrs@.take(idx as int).contains(n)) by {
                if nbrs@.take(idx as int).contains(n) {
                    let jj = choose|jj: int| 0 <= jj < idx && nbrs@.take(idx as int)[jj] == n;
                    assert(nbrs@[jj] == n && nbrs@[idx as int] == n);
                }
            }
            crate::state::lemma_nbr_count_range(s0, d, n);
        }
        let v = grid_get(g, n);
        assert(v == s0[linc(d, n)]);
        if v & 0x2000 == 0x0000 {
            proof {
                crate::cell::lemma_payload_increment(v);
            }
            grid_set(g, n, v + 1);
        }
        proof {
            assert(nbrs@.take(idx + 1) =~= nbrs@.take(idx as int).push(nbrs@[idx as int]));
            assert forall|y: Coord| #[trigger] in_bounds(d, y) implies grid_cells(*g)[linc(d, y)]
                == placed_cell(s0, d, p, nbrs@.take(idx + 1), y) by {
                crate::coords::lemma_linc_bounds(d, y);
                if y != n {
                    crate::state::lemma_distinct_positions(d, y, n);
                    assert(nbrs@.take(idx + 1).contains(y) == nbrs@.take(idx as int).contains(y));
                }
            }
        }
        idx += 1;
    }
    proof {
        assert(nbrs@.take(nbrs@.len() as int) =~= nbrs@);
        lemma_place_finish(s0, grid_cells(*g), d, p, nbrs@);
    }
}

} // verus!

