//! A heuristic search agent for a timed, multi-board maze-traversal puzzle.
//!
//! Several 50x50 grid maps are annotated with walls, coins, hazard tiles and a
//! start position.  The library ranks candidate maps by hazard count, builds a
//! joint game state over the selected boards, and runs an anytime, depth-layered
//! beam search ("chokudai search") that commits to the best joint move sequence
//! found before a wall-clock deadline.
use vstd::prelude::*;

pub mod board;
pub mod search;
pub mod select;
pub mod state;

verus! {

/// Height of every board, in cells.
pub const H: usize = 50;

/// Width of every board, in cells.
pub const W: usize = 50;

/// The move horizon: no action sequence is longer than this.
pub const T: usize = 2500;

} // verus!
