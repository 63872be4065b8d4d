//! The light game state of the fixed-size game: a board and the piece queue.

use vstd::prelude::*;
use crate::board::PuyoColor;
use crate::classic::board::{classic_config, Board, COLS, ROWS};
use crate::classic::piece::Piece;
use crate::grid::color_at;

pub use crate::classic::config::{CONTEXT_TENSOR_SIZE, NUM_CHANNELS, PIECE_TENSOR_SIZE, TENSOR_SIZE};

verus! {

/// Board plus the current piece and the two pieces after it.
pub struct PuyoState {
    pub board: Board,
    pub current: Piece,
    pub next: Piece,
    pub next_next: Piece,
}

impl PuyoState {
    /// The board is well formed.
    pub open spec fn wf(&self) -> bool {
        self.board.wf()
    }
}

impl Clone for PuyoState {
    fn clone(&self) -> (s: Self)
        ensures
            s.board@ == self.board@,
            s.board.grid.config() == self.board.grid.config(),
            s.current == self.current,
            s.next == self.next,
            s.next_next == self.next_next,
    {
        PuyoState {
            board: self.board.clone(),
            current: self.current,
            next: self.next,
            next_next: self.next_next,
        }
    }
}

/// 1 when cell `(c, r)` is on the board and has colour `color`, else 0.
pub open spec fn same_at(s: Seq<PuyoColor>, c: int, r: int, color: PuyoColor) -> int {
    if 0 <= c < COLS && 0 <= r < ROWS && color_at(classic_config(), s, c, r) == color {
        1
    } else {
        0
    }
}

/// How many of the four neighbours of `(col, row)` have its colour.
pub open spec fn spec_same_color_neighbors(s: Seq<PuyoColor>, col: int, row: int) -> int {
    let color = color_at(classic_config(), s, col, row);
    same_at(s, col - 1, row, color) + same_at(s, col + 1, row, color) + same_at(
        s,
        col,
        row - 1,
        color,
    ) + same_at(s, col, row + 1, color)
}

/// How many of the four neighbours of `(col, row)` have its colour (the
/// board encoding's adjacency channel holds a quarter of it).
pub fn same_color_neighbors(board: &Board, col: usize, row: usize) -> (n: usize)
    requires
        board.wf(),
        col < COLS,
        row < ROWS,
    ensures
        n == spec_same_color_neighbors(board@, col as int, row as int),
        n <= 4,
{
    let color = board.get(col, row);
    let mut n: usize = 0;
    if col > 0 && board.get(col - 1, row) == color {
        n += 1;
    }
    if col + 1 < COLS && board.get(col + 1, row) == color {
        n += 1;
    }
    if row > 0 && board.get(col, row - 1) == color {
        n += 1;
    }
    if row + 1 < ROWS && board.get(col, row + 1) == color {
        n += 1;
    }
    n
}

} // verus!
