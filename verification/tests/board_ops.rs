use mines6d::board::Board;

#[test]
fn test_is_covered() {
    assert!(Board::is_covered(0x0fff));
    assert!(!Board::is_covered(0x4fff));
    assert!(!Board::is_covered(0x8fff));
    assert!(!Board::is_covered(0xcfff));
}

#[test]
fn test_is_flagged() {
    assert!(!Board::is_flagged(0x0fff));
    assert!(Board::is_flagged(0x4fff));
    assert!(!Board::is_flagged(0x8fff));
    assert!(!Board::is_flagged(0xcfff));
}

#[test]
fn test_is_marked() {
    assert!(!Board::is_marked(0x0fff));
    assert!(!Board::is_marked(0x4fff));
    assert!(Board::is_marked(0x8fff));
    assert!(!Board::is_marked(0xcfff));
}

#[test]
fn test_is_uncovered() {
    assert!(!Board::is_uncovered(0x0fff));
    assert!(!Board::is_uncovered(0x4fff));
    assert!(!Board::is_uncovered(0x8fff));
    assert!(Board::is_uncovered(0xcfff));
}

#[test]
fn test_is_empty() {
    assert!(Board::is_empty(0b0000_0000_0000_0000));
    assert!(!Board::is_empty(0b0010_0000_0000_0000));
    assert!(Board::is_empty(0b1101_1111_1111_1111));
    assert!(!Board::is_empty(0b1111_1111_1111_1111));
}

#[test]
fn test_mines() {
    assert_eq!(Board::mines(0b0001_1111_1111_1111), 0b0001_1111_1111_1111);
    assert_eq!(Board::mines(0b1111_1111_1111_1111), 0b0001_1111_1111_1111);
    assert_eq!(Board::mines(0b0000_0000_0000_0000), 0b0000_0000_0000_0000);
    assert_eq!(Board::mines(0b1110_0000_0000_0000), 0b0000_0000_0000_0000);
}

/// Exactly one of the four visibility predicates holds for any code.
#[test]
fn test_visibility_partition() {
    for value in [0x0000u16, 0x2001, 0x4abc, 0x8123, 0xc000, 0xffff, 0x1fff, 0x6001] {
        let mut hits = 0;
        if Board::is_covered(value) {
            hits += 1;
        }
        if Board::is_flagged(value) {
            hits += 1;
        }
        if Board::is_marked(value) {
            hits += 1;
        }
        if Board::is_uncovered(value) {
            hits += 1;
        }
        assert_eq!(hits, 1);
    }
}

/// The payload mask strips the top three bits and round-trips bare
/// payloads up to 8191.
#[test]
fn test_mines_roundtrip() {
    for payload in [0u16, 1, 12, 100, 4096, 8191] {
        assert_eq!(Board::mines(payload), payload);
        assert_eq!(Board::mines(payload | 0xe000), payload);
        assert_eq!(Board::mines(payload | 0x4000), payload);
    }
}

fn volume_of(d: (usize, usize, usize, usize, usize, usize)) -> usize {
    d.0 * d.1 * d.2 * d.3 * d.4 * d.5
}

fn all_coords(
    d: (usize, usize, usize, usize, usize, usize),
) -> Vec<(usize, usize, usize, usize, usize, usize)> {
    let mut r = Vec::new();
    for x6 in 0..d.0 {
        for x5 in 0..d.1 {
            for x4 in 0..d.2 {
                for x3 in 0..d.3 {
                    for x2 in 0..d.4 {
                        for x1 in 0..d.5 {
                            r.push((x6, x5, x4, x3, x2, x1));
                        }
                    }
                }
            }
        }
    }
    r
}

/// After random placement every cell starts covered, exactly the asked
/// number of cells hold a mine, and every empty cell's payload counts
/// the mines among its neighbors.
#[test]
fn test_new_placement_counts() {
    let d = (1, 1, 2, 2, 3, 3);
    let b = Board::new(d, 7, 0);
    assert_eq!(b.mines_total, 7);
    let mut mines_found = 0;
    for c in all_coords(d) {
        let v = b.cell(c);
        assert!(Board::is_covered(v));
        if Board::is_empty(v) {
            let mut nbr_mines = 0;
            for n in b.neighbors(c) {
                if !Board::is_empty(b.cell(n)) {
                    nbr_mines += 1;
                }
            }
            assert_eq!(Board::mines(v), nbr_mines);
        } else {
            mines_found += 1;
        }
    }
    assert_eq!(mines_found, 7);
}

/// Asking for more mines than cells clamps to the volume.
#[test]
fn test_new_clamps_mines() {
    let d = (1, 1, 1, 1, 2, 2);
    let b = Board::new(d, 100, 0);
    assert_eq!(b.mines_total, volume_of(d) as u32);
    let mut mines_found = 0;
    for c in all_coords(d) {
        if !Board::is_empty(b.cell(c)) {
            mines_found += 1;
        }
    }
    assert_eq!(mines_found, 4);
}

/// One mine at the origin of a 2x2 plane: the two adjacent cells carry
/// payload 1 and the diagonal cell payload 0.
#[test]
fn test_with_mines_payloads() {
    let d = (1, 1, 1, 1, 2, 2);
    let mines = vec![(0, 0, 0, 0, 0, 0)];
    let b = Board::with_mines(d, &mines, 0);
    assert_eq!(b.mines_total, 1);
    assert!(!Board::is_empty(b.cell((0, 0, 0, 0, 0, 0))));
    assert!(Board::is_empty(b.cell((0, 0, 0, 0, 0, 1))));
    assert!(Board::is_empty(b.cell((0, 0, 0, 0, 1, 0))));
    assert!(Board::is_empty(b.cell((0, 0, 0, 0, 1, 1))));
    assert_eq!(Board::mines(b.cell((0, 0, 0, 0, 0, 1))), 1);
    assert_eq!(Board::mines(b.cell((0, 0, 0, 0, 1, 0))), 1);
    assert_eq!(Board::mines(b.cell((0, 0, 0, 0, 1, 1))), 0);
}

/// Neighbor lists hold every axis step that stays inside the grid.
#[test]
fn test_neighbors() {
    let b = Board::with_mines((3, 3, 3, 3, 3, 3), &Vec::new(), 0);
    assert_eq!(b.neighbors((1, 1, 1, 1, 1, 1)).len(), 12);
    assert_eq!(b.neighbors((0, 0, 0, 0, 0, 0)).len(), 6);
    let ns = b.neighbors((0, 1, 1, 1, 1, 2));
    assert_eq!(ns.len(), 10);
    assert!(ns.contains(&(1, 1, 1, 1, 1, 2)));
    assert!(ns.contains(&(0, 0, 1, 1, 1, 2)));
    assert!(ns.contains(&(0, 1, 1, 1, 1, 1)));
    assert!(!ns.contains(&(0, 1, 1, 1, 1, 2)));
}

/// Uncovering a zero-payload cell cascades through its region and its
/// border, and never touches a mine.
#[test]
fn test_flood_fill_region() {
    let d = (1, 1, 1, 1, 2, 2);
    let mines = vec![(0, 0, 0, 0, 0, 0)];
    let mut b = Board::with_mines(d, &mines, 0);
    let lost = b.uncover_cell((0, 0, 0, 0, 1, 1));
    assert!(!lost);
    assert!(Board::is_uncovered(b.cell((0, 0, 0, 0, 1, 1))));
    assert!(Board::is_uncovered(b.cell((0, 0, 0, 0, 0, 1))));
    assert!(Board::is_uncovered(b.cell((0, 0, 0, 0, 1, 0))));
    assert!(Board::is_covered(b.cell((0, 0, 0, 0, 0, 0))));
}

/// A larger cascade: with the single mine in a corner of a 3x3 plane,
/// uncovering the far corner reveals everything but the mine.
#[test]
fn test_flood_fill_larger() {
    let d = (1, 1, 1, 1, 3, 3);
    let mines = vec![(0, 0, 0, 0, 0, 0)];
    let mut b = Board::with_mines(d, &mines, 0);
    let lost = b.uncover_cell((0, 0, 0, 0, 2, 2));
    assert!(!lost);
    for c in all_coords(d) {
        if c == (0, 0, 0, 0, 0, 0) {
            assert!(Board::is_covered(b.cell(c)));
        } else {
            assert!(Board::is_uncovered(b.cell(c)));
        }
    }
}

/// Uncovering a nonzero-payload cell reveals only that cell: no cascade.
#[test]
fn test_uncover_single_cell() {
    let d = (1, 1, 1, 1, 2, 2);
    let mines = vec![(0, 0, 0, 0, 0, 0)];
    let mut b = Board::with_mines(d, &mines, 0);
    let lost = b.uncover_cell((0, 0, 0, 0, 0, 1));
    assert!(!lost);
    assert!(Board::is_uncovered(b.cell((0, 0, 0, 0, 0, 1))));
    assert!(Board::is_covered(b.cell((0, 0, 0, 0, 1, 0))));
    assert!(Board::is_covered(b.cell((0, 0, 0, 0, 1, 1))));
    assert!(Board::is_covered(b.cell((0, 0, 0, 0, 0, 0))));
}

/// Uncovering a mine reports the loss and leaves the board unchanged.
#[test]
fn test_uncover_mine_loses() {
    let d = (1, 1, 1, 1, 2, 2);
    let mines = vec![(0, 0, 0, 0, 0, 0)];
    let mut b = Board::with_mines(d, &mines, 0);
    let lost = b.uncover_cell((0, 0, 0, 0, 0, 0));
    assert!(lost);
    assert!(Board::is_covered(b.cell((0, 0, 0, 0, 0, 0))));
    // An already uncovered cell is a no-op, not a loss.
    b.uncover_cell((0, 0, 0, 0, 0, 1));
    assert!(!b.uncover_cell((0, 0, 0, 0, 0, 1)));
}

/// Flagging twice returns the cell and the flag counter to their
/// original state.
#[test]
fn test_flag_roundtrip() {
    let d = (1, 1, 1, 1, 2, 2);
    let mines = vec![(0, 0, 0, 0, 0, 0)];
    let mut b = Board::with_mines(d, &mines, 0);
    let before = b.cell((0, 0, 0, 0, 0, 1));
    assert_eq!(b.mines_flagged, 0);
    b.flag_cell((0, 0, 0, 0, 0, 1));
    assert_eq!(b.mines_flagged, 1);
    assert!(Board::is_flagged(b.cell((0, 0, 0, 0, 0, 1))));
    b.flag_cell((0, 0, 0, 0, 0, 1));
    assert_eq!(b.mines_flagged, 0);
    assert_eq!(b.cell((0, 0, 0, 0, 0, 1)), before);
}

/// Flagging is a no-op on marked and uncovered cells.
#[test]
fn test_flag_no_op() {
    let d = (1, 1, 1, 1, 2, 2);
    let mines = vec![(0, 0, 0, 0, 0, 0)];
    let mut b = Board::with_mines(d, &mines, 0);
    b.mark_cell((0, 0, 0, 0, 0, 1));
    b.flag_cell((0, 0, 0, 0, 0, 1));
    assert!(Board::is_marked(b.cell((0, 0, 0, 0, 0, 1))));
    assert_eq!(b.mines_flagged, 0);
}

/// Marking twice returns the cell and the mark counter to their
/// original state; marking skips flagged and uncovered cells.
#[test]
fn test_mark_roundtrip() {
    let d = (1, 1, 1, 1, 2, 2);
    let mines = vec![(0, 0, 0, 0, 0, 0)];
    let mut b = Board::with_mines(d, &mines, 0);
    let before = b.cell((0, 0, 0, 0, 1, 0));
    b.mark_cell((0, 0, 0, 0, 1, 0));
    assert_eq!(b.mines_marked, 1);
    assert!(Board::is_marked(b.cell((0, 0, 0, 0, 1, 0))));
    b.mark_cell((0, 0, 0, 0, 1, 0));
    assert_eq!(b.mines_marked, 0);
    assert_eq!(b.cell((0, 0, 0, 0, 1, 0)), before);
    b.flag_cell((0, 0, 0, 0, 0, 1));
    b.mark_cell((0, 0, 0, 0, 0, 1));
    assert!(Board::is_flagged(b.cell((0, 0, 0, 0, 0, 1))));
    assert_eq!(b.mines_marked, 0);
}

/// Flagging the mine alone wins; flagging an empty cell to match the
/// count does not.
#[test]
fn test_win_detection() {
    let d = (1, 1, 1, 1, 2, 2);
    let mines = vec![(0, 0, 0, 0, 0, 0)];
    let mut b = Board::with_mines(d, &mines, 0);
    assert!(b.flag_cell((0, 0, 0, 0, 0, 0)));

    let mut b2 = Board::with_mines(d, &mines, 0);
    assert!(!b2.flag_cell((0, 0, 0, 0, 1, 1)));
    // Unflagging the false positive and flagging the mine wins after all.
    assert!(!b2.flag_cell((0, 0, 0, 0, 1, 1)));
    assert!(b2.flag_cell((0, 0, 0, 0, 0, 0)));
}

/// A cheat with an exhausted budget changes nothing and does not
/// underflow the budget.
#[test]
fn test_cheat_no_budget() {
    let d = (1, 1, 1, 1, 2, 2);
    let mines = vec![(0, 0, 0, 0, 0, 0)];
    let mut b = Board::with_mines(d, &mines, 0);
    assert!(!b.cheat_cell((0, 0, 0, 0, 0, 0)));
    assert_eq!(b.cheats_remaining, 0);
    assert_eq!(b.mines_flagged, 0);
    for c in all_coords(d) {
        assert!(Board::is_covered(b.cell(c)));
    }
}

/// A cheat on a covered mine force-flags it, which can win the game;
/// a cheat on a covered empty cell flood-uncovers it.
#[test]
fn test_cheat_spends_budget() {
    let d = (1, 1, 1, 1, 2, 2);
    let mines = vec![(0, 0, 0, 0, 0, 0)];
    let mut b = Board::with_mines(d, &mines, 2);
    assert!(!b.cheat_cell((0, 0, 0, 0, 1, 1)));
    assert_eq!(b.cheats_remaining, 1);
    assert!(Board::is_uncovered(b.cell((0, 0, 0, 0, 1, 1))));
    assert!(b.cheat_cell((0, 0, 0, 0, 0, 0)));
    assert_eq!(b.cheats_remaining, 0);
    assert!(Board::is_flagged(b.cell((0, 0, 0, 0, 0, 0))));
}

/// A cheat on an already uncovered cell consumes the budget but leaves
/// the board alone.
#[test]
fn test_cheat_uncovered_cell() {
    let d = (1, 1, 1, 1, 2, 2);
    let mines = vec![(0, 0, 0, 0, 0, 0)];
    let mut b = Board::with_mines(d, &mines, 1);
    b.uncover_cell((0, 0, 0, 0, 0, 1));
    assert!(!b.cheat_cell((0, 0, 0, 0, 0, 1)));
    assert_eq!(b.cheats_remaining, 0);
    assert!(Board::is_uncovered(b.cell((0, 0, 0, 0, 0, 1))));
    assert!(Board::is_covered(b.cell((0, 0, 0, 0, 0, 0))));
}
