//! The state behind the board view: the board itself, the cursor, the
//! tileset and the display options, with the text the view prints.
//!
//! Drawing to the terminal and routing key events live with the
//! rendering layer; it reads this state and calls the board operations.

use vstd::prelude::*;
use crate::board::Board;
use crate::coords::{dims_pos, volume, Dims};
use crate::options::Options;
use crate::text::{dec_str, u32_to_string, usize_to_string};
use crate::tileset::Tileset;

verus! {

/// This struct is responsible for the interaction between the user and
/// the board.
pub struct BoardView {
    /// The board being played.
    pub board: Board,
    /// The fixed coordinates of the four hidden axes, slowest first.
    pub current_view: (usize, usize, usize, usize),
    /// The cursor inside the displayed plane, row then column.
    pub current_pos: (usize, usize),
    /// The glyphs used to draw cells.
    pub tileset: Tileset,
    /// Spacing factor for the individual cells.
    pub h_space: usize,
    /// Space between the additional views.
    pub view_padding: usize,
    /// Number of lines used to display the status.
    pub y_offset: usize,
    /// Length of the labels for the additional views.
    pub label_len: usize,
    /// Global options, including the history file path.
    pub options: Options,
}

/// The sum of `a` and `b` clamped into `[min, max]`.
pub open spec fn spec_add_checked(a: int, b: int, min: int, max: int) -> int {
    if a + b < min {
        min
    } else if a + b > max {
        max
    } else {
        a + b
    }
}

impl BoardView {
    /// The view state is sound: the board is well formed and both the
    /// hidden-axis selection and the cursor are inside the grid.
    pub open spec fn wf(self) -> bool {
        &&& self.board.wf()
        &&& self.current_view.0 < self.board.dims().0
        &&& self.current_view.1 < self.board.dims().1
        &&& self.current_view.2 < self.board.dims().2
        &&& self.current_view.3 < self.board.dims().3
        &&& self.current_pos.0 < self.board.dims().4
        &&& self.current_pos.1 < self.board.dims().5
    }

    /// Creates a view of a fresh board with the cursor at the origin and
    /// the display settings taken from the configuration, when there is
    /// one.
    pub fn new(size: Dims, mines: u32, cheats: u32, options: Options) -> (r: BoardView)
        requires
            dims_pos(size),
            volume(size) <= 0x7fff_ffff,
        ensures
            r.wf(),
            r.board.dims() == size,
            r.board.mines_total == if mines <= volume(size) {
                mines as int
            } else {
                volume(size)
            },
            r.board.cheats_total == cheats,
            r.board.cheats_remaining == cheats,
            r.current_view == (0usize, 0usize, 0usize, 0usize),
            r.current_pos == (0usize, 0usize),
            r.tileset.use_color == (match options.config {
                Some(config) => config.use_color,
                None => true,
            }),
            r.tileset.use_unicode == (match options.config {
                Some(config) => config.use_unicode,
                None => true,
            }),
            r.h_space == (match options.config {
                Some(config) => config.cells_h_space as int,
                None => 2,
            }),
            r.view_padding == 2,
            r.y_offset == 5,
            r.label_len == 6,
            r.options == options,
    {
        let board = Board::new(size, mines, cheats);

        let current_view = (0usize, 0usize, 0usize, 0usize);
        let current_pos = (0usize, 0usize);

        // get tileset options from config
        let use_color = match &options.config {
            Some(config) => config.use_color,
            None => true,
        };
        let use_unicode = match &options.config {
            Some(config) => config.use_unicode,
            None => true,
        };

        let tileset = Tileset::new(use_color, use_unicode);

        // get h_space from config
        let h_space = match &options.config {
            Some(config) => config.cells_h_space,
            None => 2,
        };

        BoardView {
            board,
            current_view,
            current_pos,
            tileset,
            h_space,
            view_padding: 2,
            y_offset: 5,
            label_len: 6,
            options,
        }
    }

    /// Returns the current position as a formatted String.
    pub fn format_pos_string(&self) -> (r: String)
        ensures
            r@ == "Position ("@ + dec_str(self.current_pos.1 as int) + ", "@ + dec_str(
                self.current_pos.0 as int,
            ) + ", "@ + dec_str(self.current_view.3 as int) + ", "@ + dec_str(
                self.current_view.2 as int,
            ) + ", "@ + dec_str(self.current_view.1 as int) + ", "@ + dec_str(
                self.current_view.0 as int,
            ) + ")"@,
    {
        let mut r = "Position (".to_owned();
        r.append(usize_to_string(self.current_pos.1).as_str());
        r.append(", ");
        r.append(usize_to_string(self.current_pos.0).as_str());
        r.append(", ");
        r.append(usize_to_string(self.current_view.3).as_str());
        r.append(", ");
        r.append(usize_to_string(self.current_view.2).as_str());
        r.append(", ");
        r.append(usize_to_string(self.current_view.1).as_str());
        r.append(", ");
        r.append(usize_to_string(self.current_view.0).as_str());
        r.append(")");
        r
    }

    /// Returns the board size as a formatted String.
    pub fn format_size_string(&self) -> (r: String)
        ensures
            r@ == "Size     ("@ + dec_str(self.board.dims().5 as int) + ", "@ + dec_str(
                self.board.dims().4 as int,
            ) + ", "@ + dec_str(self.board.dims().3 as int) + ", "@ + dec_str(
                self.board.dims().2 as int,
            ) + ", "@ + dec_str(self.board.dims().1 as int) + ", "@ + dec_str(
                self.board.dims().0 as int,
            ) + ")"@,
    {
        let d = self.board.dim();
        let mut r = "Size     (".to_owned();
        r.append(usize_to_string(d.5).as_str());
        r.append(", ");
        r.append(usize_to_string(d.4).as_str());
        r.append(", ");
        r.append(usize_to_string(d.3).as_str());
        r.append(", ");
        r.append(usize_to_string(d.2).as_str());
        r.append(", ");
        r.append(usize_to_string(d.1).as_str());
        r.append(", ");
        r.append(usize_to_string(d.0).as_str());
        r.append(")");
        r
    }

    /// One line recording a finished game: its result, the mine and
    /// cheat totals and the board size.
    pub fn format_result_line(&self, result: &str) -> (r: String)
        ensures
            r@ == "{\"result\": \""@ + result@ + "\", \"mines\": "@ + dec_str(
                self.board.mines_total as int,
            ) + ", \"cheats\": "@ + dec_str(self.board.cheats_total as int) + ", \"size\": ["@
                + dec_str(self.board.dims().5 as int) + ", "@ + dec_str(self.board.dims().4 as int)
                + ", "@ + dec_str(self.board.dims().3 as int) + ", "@ + dec_str(
                self.board.dims().2 as int,
            ) + ", "@ + dec_str(self.board.dims().1 as int) + ", "@ + dec_str(
                self.board.dims().0 as int,
            ) + "]}\n"@,
    {
        let d = self.board.dim();
        let mut r = "{\"result\": \"".to_owned();
        r.append(result);
        r.append("\", \"mines\": ");
        r.append(u32_to_string(self.board.mines_total).as_str());
        r.append(", \"cheats\": ");
        r.append(u32_to_string(self.board.cheats_total).as_str());
        r.append(", \"size\": [");
        r.append(usize_to_string(d.5).as_str());
        r.append(", ");
        r.append(usize_to_string(d.4).as_str());
        r.append(", ");
        r.append(usize_to_string(d.3).as_str());
        r.append(", ");
        r.append(usize_to_string(d.2).as_str());
        r.append(", ");
        r.append(usize_to_string(d.1).as_str());
        r.append(", ");
        r.append(usize_to_string(d.0).as_str());
        r.append("]}\n");
        r
    }

    /// Changes `self.current_view` and `self.current_pos` according to
    /// direction, bounded by the board size.
    pub fn change_pos(&mut self, direction: (i8, i8, i8, i8, i8, i8))
        requires
            old(self).wf(),
        ensures
            final(self).wf(),
            final(self).board == old(self).board,
            final(self).current_view.0 == spec_add_checked(
                old(self).current_view.0 as int,
                direction.0 as int,
                0,
                old(self).board.dims().0 - 1,
            ),
            final(self).current_view.1 == spec_add_checked(
                old(self).current_view.1 as int,
                direction.1 as int,
                0,
                old(self).board.dims().1 - 1,
            ),
            final(self).current_view.2 == spec_add_checked(
                old(self).current_view.2 as int,
                direction.2 as int,
                0,
                old(self).board.dims().2 - 1,
            ),
            final(self).current_view.3 == spec_add_checked(
                old(self).current_view.3 as int,
                direction.3 as int,
                0,
                old(self).board.dims().3 - 1,
            ),
            final(self).current_pos.0 == spec_add_checked(
                old(self).current_pos.0 as int,
                direction.4 as int,
                0,
                old(self).board.dims().4 - 1,
            ),
            final(self).current_pos.1 == spec_add_checked(
                old(self).current_pos.1 as int,
                direction.5 as int,
                0,
                old(self).board.dims().5 - 1,
            ),
            final(self).tileset == old(self).tileset,
            final(self).h_space == old(self).h_space,
            final(self).view_padding == old(self).view_padding,
            final(self).y_offset == old(self).y_offset,
            final(self).label_len == old(self).label_len,
            final(self).options == old(self).options,
    {
        let (s6, s5, s4, s3, s2, s1) = self.board.dim();
        let (d6, d5, d4, d3, d2, d1) = direction;

        self.current_view.0 = Self::add_checked(self.current_view.0, d6, 0, s6 - 1);
        self.current_view.1 = Self::add_checked(self.current_view.1, d5, 0, s5 - 1);
        self.current_view.2 = Self::add_checked(self.current_view.2, d4, 0, s4 - 1);
        self.current_view.3 = Self::add_checked(self.current_view.3, d3, 0, s3 - 1);
        self.current_pos.0 = Self::add_checked(self.current_pos.0, d2, 0, s2 - 1);
        self.current_pos.1 = Self::add_checked(self.current_pos.1, d1, 0, s1 - 1);
    }

    /// The sum of `a` and `b` clamped into `[min, max]`.
    pub fn add_checked(a: usize, b: i8, min: usize, max: usize) -> (r: usize)
        requires
            min <= max,
        ensures
            r == spec_add_checked(a as int, b as int, min as int, max as int),
    {
        if b >= 0 {
            let bb = b as usize;
            if a >= max {
                max
            } else if bb >= max - a {
                max
            } else {
                let s = a + bb;
                if s < min {
                    min
                } else {
                    s
                }
            }
        } else {
            let m = (-(b as i32)) as usize;
            if a <= min {
                min
            } else if m >= a - min {
                min
            } else {
                let s = a - m;
                if s > max {
                    max
                } else {
                    s
                }
            }
        }
    }
}

} // verus!
