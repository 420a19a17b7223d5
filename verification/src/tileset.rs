//! Turning a cell code into the text of its tile.
//!
//! The colored and styled variants live with the rendering layer; here
//! are the plain glyph choices, which depend only on the cell code.

use vstd::prelude::*;
use crate::cell::{
    spec_covered, spec_empty, spec_flagged, spec_marked, spec_payload,
};

verus! {

/// Used to convert the value of a cell to a string of glyphs.
pub struct Tileset {
    /// Whether cells are drawn in color.
    pub use_color: bool,
    /// Whether cells are drawn with Unicode glyphs.
    pub use_unicode: bool,
}

/// The uppercase hexadecimal character of a payload in 1..=15.
pub open spec fn hex_digit(p: int) -> char {
    if p == 1 {
        '1'
    } else if p == 2 {
        '2'
    } else if p == 3 {
        '3'
    } else if p == 4 {
        '4'
    } else if p == 5 {
        '5'
    } else if p == 6 {
        '6'
    } else if p == 7 {
        '7'
    } else if p == 8 {
        '8'
    } else if p == 9 {
        '9'
    } else if p == 10 {
        'A'
    } else if p == 11 {
        'B'
    } else if p == 12 {
        'C'
    } else if p == 13 {
        'D'
    } else if p == 14 {
        'E'
    } else {
        'F'
    }
}

/// The ASCII tile of a cell code: `#` covered, `X` flagged, `?` marked,
/// and for uncovered cells `.` for payload zero, the hexadecimal digit
/// for 1..=15, `+` beyond, `*` for an uncovered mine.
pub open spec fn spec_tile_ascii(value: u16) -> Seq<char> {
    if spec_covered(value) {
        seq!['#']
    } else if spec_flagged(value) {
        seq!['X']
    } else if spec_marked(value) {
        seq!['?']
    } else if spec_empty(value) {
        if spec_payload(value) == 0 {
            seq!['.']
        } else if spec_payload(value) <= 15 {
            seq![hex_digit(spec_payload(value) as int)]
        } else {
            seq!['+']
        }
    } else {
        seq!['*']
    }
}

/// The Unicode tile of a cell code, differing from the ASCII one in the
/// covered, flagged and zero-payload glyphs.
pub open spec fn spec_tile_unicode(value: u16) -> Seq<char> {
    if spec_covered(value) {
        seq!['▮']
    } else if spec_flagged(value) {
        seq!['⚑']
    } else if spec_marked(value) {
        seq!['?']
    } else if spec_empty(value) {
        if spec_payload(value) == 0 {
            seq!['·']
        } else if spec_payload(value) <= 15 {
            seq![hex_digit(spec_payload(value) as int)]
        } else {
            seq!['+']
        }
    } else {
        seq!['*']
    }
}

/// The one-character string of a payload's hexadecimal digit.
fn hex_digit_str(p: u16) -> (r: &'static str)
    requires
        1 <= p <= 15,
    ensures
        r@ == seq![hex_digit(p as int)],
{
    proof {
        reveal_strlit("1");
        reveal_strlit("2");
        reveal_strlit("3");
        reveal_strlit("4");
        reveal_strlit("5");
        reveal_strlit("6");
        reveal_strlit("7");
        reveal_strlit("8");
        reveal_strlit("9");
        reveal_strlit("A");
        reveal_strlit("B");
        reveal_strlit("C");
        reveal_strlit("D");
        reveal_strlit("E");
        reveal_strlit("F");
    }
    let r = match p {
        1 => "1",
        2 => "2",
        3 => "3",
        4 => "4",
        5 => "5",
        6 => "6",
        7 => "7",
        8 => "8",
        9 => "9",
        10 => "A",
        11 => "B",
        12 => "C",
        13 => "D",
        14 => "E",
        _ => "F",
    };
    proof {
        assert(r@ =~= seq![hex_digit(p as int)]);
    }
    r
}

impl Tileset {
    /// Creates a new `Tileset` containing the given settings.
    pub fn new(use_color: bool, use_unicode: bool) -> (r: Tileset)
        ensures
            r.use_color == use_color,
            r.use_unicode == use_unicode,
    {
        Tileset { use_color, use_unicode }
    }

    /// Formats value using ASCII characters.
    pub fn format_cell_ascii(value: u16) -> (r: String)
        ensures
            r@ == spec_tile_ascii(value),
    {
        proof {
            reveal_strlit("#");
            reveal_strlit("X");
            reveal_strlit("?");
            reveal_strlit(".");
            reveal_strlit("+");
            reveal_strlit("*");
        }
        let t = if crate::board::Board::is_covered(value) {
            "#"
        } else if crate::board::Board::is_flagged(value) {
            "X"
        } else if crate::board::Board::is_marked(value) {
            "?"
        } else if crate::board::Board::is_empty(value) {
            let p = crate::board::Board::mines(value);
            match p {
                0 => ".",
                1..=15 => hex_digit_str(p),
                _ => "+",
            }
        } else {
            "*"
        };
        let r = t.to_owned();
        proof {
            assert(r@ =~= spec_tile_ascii(value));
        }
        r
    }

    /// Formats value using Unicode characters.
    pub fn format_cell_unicode(value: u16) -> (r: String)
        ensures
            r@ == spec_tile_unicode(value),
    {
        proof {
            reveal_strlit("▮");
            reveal_strlit("⚑");
            reveal_strlit("?");
            reveal_strlit("·");
            reveal_strlit("+");
            reveal_strlit("*");
        }
        let t = if crate::board::Board::is_covered(value) {
            "▮"
        } else if crate::board::Board::is_flagged(value) {
            "⚑"
        } else if crate::board::Board::is_marked(value) {
            "?"
        } else if crate::board::Board::is_empty(value) {
            let p = crate::board::Board::mines(value);
            match p {
                0 => "·",
                1..=15 => hex_digit_str(p),
                _ => "+",
            }
        } else {
            "*"
        };
        let r = t.to_owned();
        proof {
            assert(r@ =~= spec_tile_unicode(value));
        }
        r
    }
}

} // verus!
