//! The light game state used by the search: a board and the piece queue.

use vstd::prelude::*;
use crate::board::Board;
use crate::piece::Piece;

verus! {

/// Board plus the current piece and the two pieces after it.
pub struct PuyoState {
    pub board: Board,
    pub current: Piece,
    pub next: Piece,
    pub next_next: Piece,
}

impl PuyoState {
    /// The board is well formed.
    pub open spec fn wf(&self) -> bool {
        self.board.wf()
    }
}

impl Clone for PuyoState {
    fn clone(&self) -> (s: Self)
        ensures
            s.board.config() == self.board.config(),
            s.board@ == self.board@,
            s.current == self.current,
            s.next == self.next,
            s.next_next == self.next_next,
    {
        PuyoState {
            board: self.board.clone(),
            current: self.current,
            next: self.next,
            next_next: self.next_next,
        }
    }
}

} // verus!
