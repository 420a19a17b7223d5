//! The 16-bit cell code and its packed fields.
//!
//! Bits 15-14 hold the visibility state (`00` covered, `01` flagged,
//! `10` marked, `11` uncovered), bit 13 the mine bit (`0` empty, `1` mine),
//! and bits 12-0 the payload: for an empty cell the number of mines among
//! its axis-neighbors, for a mine cell conventionally 1.

use vstd::prelude::*;

verus! {

/// Cell code of a fresh mine: covered, mine bit set, payload 1.
pub const MINE_CELL: u16 = 0x2001;

/// The cell is covered (visibility bits `00`).
pub open spec fn spec_covered(value: u16) -> bool {
    value & 0xc000 == 0x0000
}

/// The cell is flagged (visibility bits `01`).
pub open spec fn spec_flagged(value: u16) -> bool {
    value & 0xc000 == 0x4000
}

/// The cell is marked (visibility bits `10`).
pub open spec fn spec_marked(value: u16) -> bool {
    value & 0xc000 == 0x8000
}

/// The cell is uncovered (visibility bits `11`).
pub open spec fn spec_uncovered(value: u16) -> bool {
    value & 0xc000 == 0xc000
}

/// The cell is empty (mine bit clear).
pub open spec fn spec_empty(value: u16) -> bool {
    value & 0x2000 == 0x0000
}

/// The cell holds a mine (mine bit set).
pub open spec fn spec_mine(value: u16) -> bool {
    value & 0x2000 == 0x2000
}

/// The payload field: the low 13 bits of the cell code.
pub open spec fn spec_payload(value: u16) -> u16 {
    value & 0x1fff
}

/// Cell code after flagging a covered cell.
pub open spec fn flag_set(value: u16) -> u16 {
    (value | 0x4000) & 0x7fff
}

/// Cell code after unflagging a flagged cell.
pub open spec fn flag_clear(value: u16) -> u16 {
    value & 0x3fff
}

/// Cell code after marking a covered cell.
pub open spec fn mark_set(value: u16) -> u16 {
    (value | 0x8000) & 0xbfff
}

/// Cell code after unmarking a marked cell.
pub open spec fn mark_clear(value: u16) -> u16 {
    value & 0x3fff
}

/// Cell code after uncovering a cell.
pub open spec fn uncover_set(value: u16) -> u16 {
    value | 0xc000
}

/// The all-zero cell code is covered, empty and has payload 0.
pub proof fn lemma_zero_cell()
    by (bit_vector)
    ensures
        spec_covered(0u16),
        spec_empty(0u16),
        !spec_mine(0u16),
        spec_payload(0u16) == 0,
{
}

/// Every cell code is in exactly one of the four visibility states:
/// the 2-bit visibility field is exhaustive and mutually exclusive.
pub proof fn lemma_visibility_partition(value: u16)
    by (bit_vector)
    ensures
        spec_covered(value) || spec_flagged(value) || spec_marked(value) || spec_uncovered(value),
        spec_covered(value) ==> !spec_flagged(value) && !spec_marked(value) && !spec_uncovered(value),
        spec_flagged(value) ==> !spec_covered(value) && !spec_marked(value) && !spec_uncovered(value),
        spec_marked(value) ==> !spec_covered(value) && !spec_flagged(value) && !spec_uncovered(value),
        spec_uncovered(value) ==> !spec_covered(value) && !spec_flagged(value) && !spec_marked(value),
{
}

/// A cell is a mine exactly when it is not empty: bit 13 is two-valued.
pub proof fn lemma_mine_empty(value: u16)
    by (bit_vector)
    ensures
        spec_mine(value) <==> !spec_empty(value),
{
}

/// The payload field masks off the top 3 bits whatever they hold.
pub proof fn lemma_payload_masks_upper(value: u16, upper: u16)
    by (bit_vector)
    requires
        upper & 0x1fff == 0,
    ensures
        spec_payload(value | upper) == spec_payload(value),
        spec_payload(value) <= 0x1fff,
{
}

/// A bare payload in 0..=0x1fff passes through the mask unchanged.
pub proof fn lemma_payload_roundtrip(payload: u16)
    by (bit_vector)
    requires
        payload <= 0x1fff,
    ensures
        spec_payload(payload) == payload,
{
}

/// Flagging a covered cell flips only the visibility field, and
/// unflagging brings the original code back.
pub proof fn lemma_flag_set(value: u16)
    by (bit_vector)
    requires
        spec_covered(value),
    ensures
        spec_flagged(flag_set(value)),
        spec_payload(flag_set(value)) == spec_payload(value),
        spec_empty(flag_set(value)) == spec_empty(value),
        flag_clear(flag_set(value)) == value,
{
}

/// Unflagging a flagged cell flips only the visibility field, and
/// flagging again brings the original code back.
pub proof fn lemma_flag_clear(value: u16)
    by (bit_vector)
    requires
        spec_flagged(value),
    ensures
        spec_covered(flag_clear(value)),
        spec_payload(flag_clear(value)) == spec_payload(value),
        spec_empty(flag_clear(value)) == spec_empty(value),
        flag_set(flag_clear(value)) == value,
{
}

/// Marking a covered cell flips only the visibility field, and
/// unmarking brings the original code back.
pub proof fn lemma_mark_set(value: u16)
    by (bit_vector)
    requires
        spec_covered(value),
    ensures
        spec_marked(mark_set(value)),
        spec_payload(mark_set(value)) == spec_payload(value),
        spec_empty(mark_set(value)) == spec_empty(value),
        mark_clear(mark_set(value)) == value,
{
}

/// Unmarking a marked cell flips only the visibility field.
pub proof fn lemma_mark_clear(value: u16)
    by (bit_vector)
    requires
        spec_marked(value),
    ensures
        spec_covered(mark_clear(value)),
        spec_payload(mark_clear(value)) == spec_payload(value),
        spec_empty(mark_clear(value)) == spec_empty(value),
        mark_set(mark_clear(value)) == value,
{
}

/// Uncovering sets both visibility bits and leaves mine bit and payload.
pub proof fn lemma_uncover_set(value: u16)
    by (bit_vector)
    ensures
        spec_uncovered(uncover_set(value)),
        spec_payload(uncover_set(value)) == spec_payload(value),
        spec_empty(uncover_set(value)) == spec_empty(value),
        spec_mine(uncover_set(value)) == spec_mine(value),
        spec_covered(value) ==> !spec_flagged(uncover_set(value)) && !spec_marked(uncover_set(value)),
{
}

/// The code of a fresh mine cell: covered, a mine, payload 1.
pub proof fn lemma_mine_cell()
    by (bit_vector)
    ensures
        spec_covered(MINE_CELL),
        spec_mine(MINE_CELL),
        spec_payload(MINE_CELL) == 1,
{
}

/// Incrementing the payload of an empty cell with a small payload
/// neither overflows nor touches the visibility field or the mine bit.
pub proof fn lemma_payload_increment(value: u16)
    by (bit_vector)
    requires
        spec_empty(value),
        spec_payload(value) <= 12,
    ensures
        value + 1 <= 0xffff,
        spec_payload((value + 1) as u16) == spec_payload(value) + 1,
        spec_empty((value + 1) as u16),
        ((value + 1) as u16) & 0xc000 == value & 0xc000,
        spec_covered(value) ==> spec_covered((value + 1) as u16),
        spec_flagged(value) ==> spec_flagged((value + 1) as u16),
        spec_marked(value) ==> spec_marked((value + 1) as u16),
        spec_uncovered(value) ==> spec_uncovered((value + 1) as u16),
{
}

} // verus!
