//! Sizes derived from the fixed board: actions and network tensors.

use vstd::prelude::*;
use crate::classic::board::{COLS, NUM_COLORS, ROWS};

verus! {

/// Number of actions: a column times four orientations.
pub const NUM_ACTIONS: usize = COLS * 4;

/// Board tensor channels: one per colour, plus occupancy and adjacency.
pub const NUM_CHANNELS: usize = NUM_COLORS + 2;

/// Flat size of the board tensor.
pub const TENSOR_SIZE: usize = NUM_CHANNELS * ROWS * COLS;

/// Size of the piece encoding: three pieces, two colours each, one-hot.
pub const PIECE_TENSOR_SIZE: usize = 3 * 2 * NUM_COLORS;

/// Size of the context tensor (the piece encoding).
pub const CONTEXT_TENSOR_SIZE: usize = PIECE_TENSOR_SIZE;

} // verus!
