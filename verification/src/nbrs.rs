//! Computing the neighbor list of a cell: for each axis, one step down
//! when the cell is not at index 0 and one step up when it is not at the
//! last index, in a fixed axis order.

use vstd::prelude::*;
use crate::coords::{dims_pos, in_bounds, is_adjacent, Coord, Dims};

verus! {

broadcast use vstd::seq_lib::lemma_seq_contains_after_push;

/// Whether candidate slot `m` (two slots per axis: down, then up) is
/// inside the grid for a cell at `c`.
spec fn cand_cond(d: Dims, c: Coord, m: int) -> bool {
    if m == 0 {
        c.0 > 0
    } else if m == 1 {
        c.0 + 1 < d.0
    } else if m == 2 {
        c.1 > 0
    } else if m == 3 {
        c.1 + 1 < d.1
    } else if m == 4 {
        c.2 > 0
    } else if m == 5 {
        c.2 + 1 < d.2
    } else if m == 6 {
        c.3 > 0
    } else if m == 7 {
        c.3 + 1 < d.3
    } else if m == 8 {
        c.4 > 0
    } else if m == 9 {
        c.4 + 1 < d.4
    } else if m == 10 {
        c.5 > 0
    } else if m == 11 {
        c.5 + 1 < d.5
    } else {
        false
    }
}

/// The coordinate in candidate slot `m` for a cell at `c`.
spec fn cand_of(d: Dims, c: Coord, m: int) -> Coord {
    if m == 0 {
        ((c.0 - 1) as usize, c.1, c.2, c.3, c.4, c.5)
    } else if m == 1 {
        ((c.0 + 1) as usize, c.1, c.2, c.3, c.4, c.5)
    } else if m == 2 {
        (c.0, (c.1 - 1) as usize, c.2, c.3, c.4, c.5)
    } else if m == 3 {
        (c.0, (c.1 + 1) as usize, c.2, c.3, c.4, c.5)
    } else if m == 4 {
        (c.0, c.1, (c.2 - 1) as usize, c.3, c.4, c.5)
    } else if m == 5 {
        (c.0, c.1, (c.2 + 1) as usize, c.3, c.4, c.5)
    } else if m == 6 {
        (c.0, c.1, c.2, (c.3 - 1) as usize, c.4, c.5)
    } else if m == 7 {
        (c.0, c.1, c.2, (c.3 + 1) as usize, c.4, c.5)
    } else if m == 8 {
        (c.0, c.1, c.2, c.3, (c.4 - 1) as usize, c.5)
    } else if m == 9 {
        (c.0, c.1, c.2, c.3, (c.4 + 1) as usize, c.5)
    } else if m == 10 {
        (c.0, c.1, c.2, c.3, c.4, (c.5 - 1) as usize)
    } else if m == 11 {
        (c.0, c.1, c.2, c.3, c.4, (c.5 + 1) as usize)
    } else {
        c
    }
}

/// The slot that `b` occupies among the candidates of `c`, or 12 when it
/// occupies none.
#[verifier::opaque]
spec fn nbr_code(d: Dims, c: Coord, b: Coord) -> int {
    if cand_cond(d, c, 0) && b == cand_of(d, c, 0) {
        0
    } else if cand_cond(d, c, 1) && b == cand_of(d, c, 1) {
        1
    } else if cand_cond(d, c, 2) && b == cand_of(d, c, 2) {
        2
    } else if cand_cond(d, c, 3) && b == cand_of(d, c, 3) {
        3
    } else if cand_cond(d, c, 4) && b == cand_of(d, c, 4) {
        4
    } else if cand_cond(d, c, 5) && b == cand_of(d, c, 5) {
        5
    } else if cand_cond(d, c, 6) && b == cand_of(d, c, 6) {
        6
    } else if cand_cond(d, c, 7) && b == cand_of(d, c, 7) {
        7
    } else if cand_cond(d, c, 8) && b == cand_of(d, c, 8) {
        8
    } else if cand_cond(d, c, 9) && b == cand_of(d, c, 9) {
        9
    } else if cand_cond(d, c, 10) && b == cand_of(d, c, 10) {
        10
    } else if cand_cond(d, c, 11) && b == cand_of(d, c, 11) {
        11
    } else {
        12
    }
}

/// The building invariant: all gathered coordinates are in-bounds
/// neighbors in strictly increasing slot order up to slot `m`, and every
/// valid slot up to `m` has been gathered.
#[verifier::opaque]
spec fn nbr_inv(d: Dims, c: Coord, r: Seq<Coord>, m: int) -> bool {
    &&& r.len() <= m + 1
    &&& forall|j: int|
        0 <= j < r.len() ==> in_bounds(d, #[trigger] r[j]) && is_adjacent(c, r[j]) && nbr_code(
            d,
            c,
            r[j],
        ) <= m
    &&& forall|j1: int, j2: int|
        0 <= j1 < j2 < r.len() ==> nbr_code(d, c, #[trigger] r[j1]) < nbr_code(
            d,
            c,
            #[trigger] r[j2],
        )
    &&& forall|mm: int|
        0 <= mm <= m && #[trigger] cand_cond(d, c, mm) ==> r.contains(cand_of(d, c, mm))
}

/// Nothing is gathered before the first slot.
proof fn lemma_nbr_init(d: Dims, c: Coord)
    ensures
        nbr_inv(d, c, Seq::<Coord>::empty(), -1),
{
    reveal(nbr_inv);
}

/// A valid candidate is an in-bounds neighbor sitting in its own slot.
#[verifier::rlimit(100)]
proof fn lemma_cand_props(d: Dims, c: Coord, m: int)
    requires
        dims_pos(d),
        in_bounds(d, c),
        0 <= m < 12,
        cand_cond(d, c, m),
    ensures
        in_bounds(d, cand_of(d, c, m)),
        is_adjacent(c, cand_of(d, c, m)),
        nbr_code(d, c, cand_of(d, c, m)) == m,
{
    reveal(nbr_code);
    if m == 0 {
        assert(nbr_code(d, c, cand_of(d, c, 0)) == 0);
    } else if m == 1 {
        assert(nbr_code(d, c, cand_of(d, c, 1)) == 1);
    } else if m == 2 {
        assert(nbr_code(d, c, cand_of(d, c, 2)) == 2);
    } else if m == 3 {
        assert(nbr_code(d, c, cand_of(d, c, 3)) == 3);
    } else if m == 4 {
        assert(nbr_code(d, c, cand_of(d, c, 4)) == 4);
    } else if m == 5 {
        assert(nbr_code(d, c, cand_of(d, c, 5)) == 5);
    } else if m == 6 {
        assert(nbr_code(d, c, cand_of(d, c, 6)) == 6);
    } else if m == 7 {
        assert(nbr_code(d, c, cand_of(d, c, 7)) == 7);
    } else if m == 8 {
        assert(nbr_code(d, c, cand_of(d, c, 8)) == 8);
    } else if m == 9 {
        assert(nbr_code(d, c, cand_of(d, c, 9)) == 9);
    } else if m == 10 {
        assert(nbr_code(d, c, cand_of(d, c, 10)) == 10);
    } else {
        assert(nbr_code(d, c, cand_of(d, c, 11)) == 11);
    }
}

/// Every in-bounds neighbor of `c` occupies some valid candidate slot.
#[verifier::rlimit(100)]
proof fn lemma_adjacent_slot(d: Dims, c: Coord, b: Coord)
    requires
        dims_pos(d),
        in_bounds(d, c),
        in_bounds(d, b),
        is_adjacent(c, b),
    ensures
        0 <= nbr_code(d, c, b) < 12,
        cand_cond(d, c, nbr_code(d, c, b)),
        b == cand_of(d, c, nbr_code(d, c, b)),
{
    reveal(nbr_code);
    if b.0 != c.0 {
        if b.0 + 1 == c.0 {
            assert(cand_cond(d, c, 0) && b == cand_of(d, c, 0));
        } else {
            assert(cand_cond(d, c, 1) && b == cand_of(d, c, 1));
        }
    } else if b.1 != c.1 {
        if b.1 + 1 == c.1 {
            assert(cand_cond(d, c, 2) && b == cand_of(d, c, 2));
        } else {
            assert(cand_cond(d, c, 3) && b == cand_of(d, c, 3));
        }
    } else if b.2 != c.2 {
        if b.2 + 1 == c.2 {
            assert(cand_cond(d, c, 4) && b == cand_of(d, c, 4));
        } else {
            assert(cand_cond(d, c, 5) && b == cand_of(d, c, 5));
        }
    } else if b.3 != c.3 {
        if b.3 + 1 == c.3 {
            assert(cand_cond(d, c, 6) && b == cand_of(d, c, 6));
        } else {
            assert(cand_cond(d, c, 7) && b == cand_of(d, c, 7));
        }
    } else if b.4 != c.4 {
        if b.4 + 1 == c.4 {
            assert(cand_cond(d, c, 8) && b == cand_of(d, c, 8));
        } else {
            assert(cand_cond(d, c, 9) && b == cand_of(d, c, 9));
        }
    } else {
        if b.5 + 1 == c.5 {
            assert(cand_cond(d, c, 10) && b == cand_of(d, c, 10));
        } else {
            assert(cand_cond(d, c, 11) && b == cand_of(d, c, 11));
        }
    }
}

/// Gathering the candidate of a valid slot preserves the invariant.
proof fn lemma_nbr_push(d: Dims, c: Coord, r: Seq<Coord>, m: int)
    requires
        dims_pos(d),
        in_bounds(d, c),
        0 <= m < 12,
        cand_cond(d, c, m),
        nbr_inv(d, c, r, m - 1),
    ensures
        nbr_inv(d, c, r.push(cand_of(d, c, m)), m),
{
    reveal(nbr_inv);
    lemma_cand_props(d, c, m);
    let q = r.push(cand_of(d, c, m));
    assert forall|j: int| 0 <= j < q.len() implies in_bounds(d, #[trigger] q[j]) && is_adjacent(
        c,
        q[j],
    ) && nbr_code(d, c, q[j]) <= m by {
        if j < r.len() {
            assert(q[j] == r[j]);
        }
    }
    assert forall|j1: int, j2: int| 0 <= j1 < j2 < q.len() implies nbr_code(
        d,
        c,
        #[trigger] q[j1],
    ) < nbr_code(d, c, #[trigger] q[j2]) by {
        assert(q[j1] == r[j1]);
        if j2 < r.len() {
            assert(q[j2] == r[j2]);
        }
    }
}

/// Skipping an invalid slot preserves the invariant.
proof fn lemma_nbr_skip(d: Dims, c: Coord, r: Seq<Coord>, m: int)
    requires
        0 <= m < 12,
        !cand_cond(d, c, m),
        nbr_inv(d, c, r, m - 1),
    ensures
        nbr_inv(d, c, r, m),
{
    reveal(nbr_inv);
}

/// After the last slot the gathered list is exactly the neighbor set.
proof fn lemma_nbr_finish(d: Dims, c: Coord, r: Seq<Coord>)
    requires
        dims_pos(d),
        in_bounds(d, c),
        nbr_inv(d, c, r, 11),
    ensures
        r.len() <= 12,
        forall|j: int| 0 <= j < r.len() ==> in_bounds(d, #[trigger] r[j]) && is_adjacent(c, r[j]),
        forall|j: int, k: int| 0 <= j < k < r.len() ==> r[j] != r[k],
        forall|b: Coord| in_bounds(d, b) && is_adjacent(c, b) ==> #[trigger] r.contains(b),
{
    reveal(nbr_inv);
    assert forall|j: int, k: int| 0 <= j < k < r.len() implies r[j] != r[k] by {
        assert(nbr_code(d, c, r[j]) < nbr_code(d, c, r[k]));
    }
    assert forall|b: Coord| in_bounds(d, b) && is_adjacent(c, b) implies #[trigger] r.contains(
        b,
    ) by {
        lemma_adjacent_slot(d, c, b);
        let m = nbr_code(d, c, b);
        assert(cand_cond(d, c, m));
    }
}

/// Returns exactly the in-bounds coordinates adjacent to `cell`, each
/// exactly once, axis by axis.
#[verifier::rlimit(100)]
#[verifier::spinoff_prover]
pub fn neighbor_list(d: Dims, cell: Coord) -> (r: Vec<Coord>)
    requires
        dims_pos(d),
        in_bounds(d, cell),
    ensures
        r@.len() <= 12,
        forall|j: int|
            0 <= j < r@.len() ==> in_bounds(d, #[trigger] r@[j]) && is_adjacent(cell, r@[j]),
        forall|j: int, k: int| 0 <= j < k < r@.len() ==> r@[j] != r@[k],
        forall|b: Coord| in_bounds(d, b) && is_adjacent(cell, b) ==> #[trigger] r@.contains(b),
{
    let (x6, x5, x4, x3, x2, x1) = cell;
    let (s6, s5, s4, s3, s2, s1) = d;
    let mut result: Vec<Coord> = Vec::new();

    proof {
        assert(result@ =~= Seq::<Coord>::empty());
        lemma_nbr_init(d, cell);
    }
    if x6 > 0 {
        let ghost prev = result@;
        result.push((x6 - 1, x5, x4, x3, x2, x1));
        proof {
            lemma_nbr_push(d, cell, prev, 0);
            assert(result@ == prev.push(cand_of(d, cell, 0)));
        }
    } else {
        proof {
            lemma_nbr_skip(d, cell, result@, 0);
        }
    }
    if x6 < s6 - 1 {
        let ghost prev = result@;
        result.push((x6 + 1, x5, x4, x3, x2, x1));
        proof {
            lemma_nbr_push(d, cell, prev, 1);
            assert(result@ == prev.push(cand_of(d, cell, 1)));
        }
    } else {
        proof {
            lemma_nbr_skip(d, cell, result@, 1);
        }
    }
    if x5 > 0 {
        let ghost prev = result@;
        result.push((x6, x5 - 1, x4, x3, x2, x1));
        proof {
            lemma_nbr_push(d, cell, prev, 2);
            assert(result@ == prev.push(cand_of(d, cell, 2)));
        }
    } else {
        proof {
            lemma_nbr_skip(d, cell, result@, 2);
        }
    }
    if x5 < s5 - 1 {
        let ghost prev = result@;
        result.push((x6, x5 + 1, x4, x3, x2, x1));
        proof {
            lemma_nbr_push(d, cell, prev, 3);
            assert(result@ == prev.push(cand_of(d, cell, 3)));
        }
    } else {
        proof {
            lemma_nbr_skip(d, cell, result@, 3);
        }
    }
    if x4 > 0 {
        let ghost prev = result@;
        result.push((x6, x5, x4 - 1, x3, x2, x1));
        proof {
            lemma_nbr_push(d, cell, prev, 4);
            assert(result@ == prev.push(cand_of(d, cell, 4)));
        }
    } else {
        proof {
            lemma_nbr_skip(d, cell, result@, 4);
        }
    }
    if x4 < s4 - 1 {
        let ghost prev = result@;
        result.push((x6, x5, x4 + 1, x3, x2, x1));
        proof {
            lemma_nbr_push(d, cell, prev, 5);
            assert(result@ == prev.push(cand_of(d, cell, 5)));
        }
    } else {
        proof {
            lemma_nbr_skip(d, cell, result@, 5);
        }
    }
    if x3 > 0 {
        let ghost prev = result@;
        result.push((x6, x5, x4, x3 - 1, x2, x1));
        proof {
            lemma_nbr_push(d, cell, prev, 6);
            assert(result@ == prev.push(cand_of(d, cell, 6)));
        }
    } else {
        proof {
            lemma_nbr_skip(d, cell, result@, 6);
        }
    }
    if x3 < s3 - 1 {
        let ghost prev = result@;
        result.push((x6, x5, x4, x3 + 1, x2, x1));
        proof {
            lemma_nbr_push(d, cell, prev, 7);
            assert(result@ == prev.push(cand_of(d, cell, 7)));
        }
    } else {
        proof {
            lemma_nbr_skip(d, cell, result@, 7);
        }
    }
    if x2 > 0 {
        let ghost prev = result@;
        result.push((x6, x5, x4, x3, x2 - 1, x1));
        proof {
            lemma_nbr_push(d, cell, prev, 8);
            assert(result@ == prev.push(cand_of(d, cell, 8)));
        }
    } else {
        proof {
            lemma_nbr_skip(d, cell, result@, 8);
        }
    }
    if x2 < s2 - 1 {
        let ghost prev = result@;
        result.push((x6, x5, x4, x3, x2 + 1, x1));
        proof {
            lemma_nbr_push(d, cell, prev, 9);
            assert(result@ == prev.push(cand_of(d, cell, 9)));
        }
    } else {
        proof {
            lemma_nbr_skip(d, cell, result@, 9);
        }
    }
    if x1 > 0 {
        let ghost prev = result@;
        result.push((x6, x5, x4, x3, x2, x1 - 1));
        proof {
            lemma_nbr_push(d, cell, prev, 10);
            assert(result@ == prev.push(cand_of(d, cell, 10)));
        }
    } else {
        proof {
            lemma_nbr_skip(d, cell, result@, 10);
        }
    }
    if x1 < s1 - 1 {
        let ghost prev = result@;
        result.push((x6, x5, x4, x3, x2, x1 + 1));
        proof {
            lemma_nbr_push(d, cell, prev, 11);
            assert(result@ == prev.push(cand_of(d, cell, 11)));
        }
    } else {
        proof {
            lemma_nbr_skip(d, cell, result@, 11);
        }
    }

    proof {
        lemma_nbr_finish(d, cell, result@);
    }

    result
}

} // verus!
