//! Logic engine for a Minesweeper variant played on a dense six-dimensional
//! grid. Each cell is a bit-packed 16-bit code holding a visibility state
//! (covered, flagged, marked or uncovered), a mine bit, and a payload that,
//! for empty cells, counts the mines among the cell's axis-neighbors.
//!
//! The engine owns mine placement, neighbor accounting, flood-fill
//! uncovering, win/loss detection and the cheat bookkeeping. Rendering,
//! input routing and persistence live outside it and only consume its
//! state through the public operations.

pub mod board;
pub mod boardview;
pub mod cell;
pub mod coords;
pub mod counting;
pub mod grid;
pub mod nbrs;
pub mod rng;
pub mod options;
pub mod region;
pub mod state;
pub mod text;
pub mod tileset;
