//! The integer rules of the falling piece: where it may stand, how it moves
//! and turns (with a wall kick), and where it lands.  The game state that
//! animates the fall lives outside the library.

use vstd::prelude::*;
use crate::board::{Board, PuyoColor};
use crate::config::GameConfig;
use crate::grid::{color_at, column_height};
use crate::piece::Orientation;

verus! {

/// Phase of the game state machine.
#[derive(Debug, Clone, Copy, PartialEq, Eq, Structural)]
pub enum GamePhase {
    /// The player controls the falling piece.
    Falling,
    /// The piece has landed; chains are resolving.
    Resolving,
    /// The game is over.
    GameOver,
}

impl GamePhase {
    /// 0 = Falling, 1 = Resolving, 2 = GameOver.
    pub fn as_u8(&self) -> (v: u8)
        ensures
            v == match *self {
                GamePhase::Falling => 0u8,
                GamePhase::Resolving => 1u8,
                GamePhase::GameOver => 2u8,
            },
    {
        match self {
            GamePhase::Falling => 0,
            GamePhase::Resolving => 1,
            GamePhase::GameOver => 2,
        }
    }
}

/// The score, the best chain and the phase once a turn's chains have
/// resolved: the turn's score is added, the best chain is raised to the
/// turn's chain count if that is larger, and the game is over when the board
/// is, otherwise the next piece falls.
pub fn after_chains(board: &Board, score: u32, max_chain: u32, turn_score: u32, chain_count: u32) -> (r: (
    u32,
    u32,
    GamePhase,
))
    requires
        board.wf(),
        score + turn_score <= u32::MAX,
    ensures
        r.0 == score + turn_score,
        r.1 == if chain_count > max_chain {
            chain_count
        } else {
            max_chain
        },
        r.2 == if board.spec_is_game_over() {
            GamePhase::GameOver
        } else {
            GamePhase::Falling
        },
{
    let best = if chain_count > max_chain {
        chain_count
    } else {
        max_chain
    };
    let phase = if board.is_game_over() {
        GamePhase::GameOver
    } else {
        GamePhase::Falling
    };
    (score + turn_score, best, phase)
}

/// The row where a falling piece with axis column `col` and orientation `ori`
/// lands: the axis column's height for North, one above the satellite
/// column's height for South, the higher of the two columns sideways (the
/// satellite column clamped to the board).
pub open spec fn landing_spec(cfg: GameConfig, s: Seq<PuyoColor>, col: int, ori: Orientation) -> int {
    let sc0 = col + ori.spec_offset().0;
    let sc = if sc0 < 0 {
        0
    } else if sc0 > cfg.cols - 1 {
        cfg.cols - 1
    } else {
        sc0
    };
    let ah = column_height(cfg, s, col);
    let sh = column_height(cfg, s, sc);
    match ori {
        Orientation::North => ah,
        Orientation::South => sh + 1,
        _ => if ah >= sh {
            ah
        } else {
            sh
        },
    }
}

/// No puyo lies above a column's stack.
pub open spec fn stacked(cfg: GameConfig, s: Seq<PuyoColor>) -> bool {
    forall|c: int, r: int|
        0 <= c < cfg.cols && column_height(cfg, s, c) <= r < cfg.rows ==> #[trigger] color_at(cfg, s, c, r)
            == PuyoColor::Empty
}

/// A piece only fits on free places: both its puyos are in the board's
/// columns, not below their columns' stacks, and on empty cells (or above
/// the board).
pub proof fn lemma_occupy_only_free(cfg: GameConfig, s: Seq<PuyoColor>, col: int, row: int, ori: Orientation)
    requires
        spec_can_occupy(cfg, s, col, row, ori),
    ensures
        ({
            let sc = col + ori.spec_offset().0;
            let sr = row + ori.spec_offset().1;
            &&& 0 <= col < cfg.cols && 0 <= sc < cfg.cols
            &&& column_height(cfg, s, col) <= row && column_height(cfg, s, sc) <= sr
            &&& row < cfg.rows ==> color_at(cfg, s, col, row) == PuyoColor::Empty
            &&& sr < cfg.rows ==> color_at(cfg, s, sc, sr) == PuyoColor::Empty
        }),
{
}

/// The first empty cell of a column is free: a North piece fits with its axis
/// on top of the column's stack when the cell above that is empty (or off
/// the board).
pub proof fn lemma_north_fits_on_stack(cfg: GameConfig, s: Seq<PuyoColor>, col: int)
    requires
        0 <= col < cfg.cols,
        column_height(cfg, s, col) + 1 < cfg.rows ==> color_at(cfg, s, col, column_height(cfg, s, col) + 1)
            == PuyoColor::Empty,
    ensures
        spec_can_occupy(cfg, s, col, column_height(cfg, s, col), Orientation::North),
{
    crate::grid::lemma_column_height(cfg, s, col);
}

/// Where a piece lands is where it fits: on a board with no puyo above the
/// stacks, a piece whose two columns are on the board can occupy its landing
/// row, and not the row below it.
pub proof fn lemma_landing_row_fits(cfg: GameConfig, s: Seq<PuyoColor>, col: int, ori: Orientation)
    requires
        stacked(cfg, s),
        0 <= col < cfg.cols,
        0 <= col + ori.spec_offset().0 < cfg.cols,
    ensures
        spec_can_occupy(cfg, s, col, landing_spec(cfg, s, col, ori), ori),
        landing_spec(cfg, s, col, ori) >= 1 ==> !spec_can_occupy(
            cfg,
            s,
            col,
            landing_spec(cfg, s, col, ori) - 1,
            ori,
        ),
{
    let sc = col + ori.spec_offset().0;
    crate::grid::lemma_column_height(cfg, s, col);
    crate::grid::lemma_column_height(cfg, s, sc);
    let l = landing_spec(cfg, s, col, ori);
    let ah = column_height(cfg, s, col);
    let sh = column_height(cfg, s, sc);
    if l < cfg.rows {
        assert(color_at(cfg, s, col, l) == PuyoColor::Empty);
    }
    if l + ori.spec_offset().1 < cfg.rows && l + ori.spec_offset().1 >= 0 {
        assert(color_at(cfg, s, sc, l + ori.spec_offset().1) == PuyoColor::Empty);
    }
}

/// A puyo of a falling piece may be at `(col, row)`: the column is on the
/// board, the row is not below the column's stack, and the cell (if on the
/// board) is empty, which matters for a puyo left in the top hidden row.
pub open spec fn cell_free(cfg: GameConfig, s: Seq<PuyoColor>, col: int, row: int) -> bool {
    &&& 0 <= col < cfg.cols
    &&& 0 <= row
    &&& column_height(cfg, s, col) <= row
    &&& row < cfg.rows ==> color_at(cfg, s, col, row) == PuyoColor::Empty
}

/// A piece with its axis at `(col, row)` and orientation `ori` fits: both
/// puyos are on free cells.
pub open spec fn spec_can_occupy(
    cfg: GameConfig,
    s: Seq<PuyoColor>,
    col: int,
    row: int,
    ori: Orientation,
) -> bool {
    &&& cell_free(cfg, s, col, row)
    &&& cell_free(cfg, s, col + ori.spec_offset().0, row + ori.spec_offset().1)
}

/// Whether a piece with its axis at `(col, row)` and orientation `ori` fits
/// on the board.
pub fn can_occupy(board: &Board, col: i32, row: i32, ori: Orientation) -> (b: bool)
    requires
        board.wf(),
        i32::MIN < col < i32::MAX,
        i32::MIN < row < i32::MAX,
    ensures
        b == spec_can_occupy(board.config(), board@, col as int, row as int, ori),
{
    let cols = board.config().cols;
    let rows = board.config().rows;
    let (dc, dr) = ori.offset();
    let sc = col + dc;
    let sr = row + dr;
    if !(0 <= col && (col as usize) < cols) || !(0 <= sc && (sc as usize) < cols) {
        return false;
    }
    if row < 0 || sr < 0 {
        return false;
    }
    let col_u = col as usize;
    let sc_u = sc as usize;
    let row_u = row as usize;
    let sr_u = sr as usize;
    if row_u < board.column_height(col_u) {
        return false;
    }
    if sr_u < board.column_height(sc_u) {
        return false;
    }
    if row_u < rows && board.get(col_u, row_u).is_color() {
        return false;
    }
    if sr_u < rows && board.get(sc_u, sr_u).is_color() {
        return false;
    }
    true
}

/// The column a piece moves to when shifted by `dcol` (-1 or 1) from axis
/// column `col`: `None` when the piece does not fit there.  A falling piece's
/// column is shifted as an `i32`, so `col` must be below `i32::MAX - 1`.
pub fn move_target(board: &Board, col: usize, row: i32, ori: Orientation, dcol: i32) -> (r: Option<
    usize,
>)
    requires
        board.wf(),
        col < board.config().cols,
        col < 0x7fff_fffe,
        dcol == -1 || dcol == 1,
        i32::MIN < row < i32::MAX,
    ensures
        r == if spec_can_occupy(board.config(), board@, col + dcol, row as int, ori) {
            Some((col + dcol) as usize)
        } else {
            None::<usize>
        },
{
    let new_col = col as i32 + dcol;
    if can_occupy(board, new_col, row, ori) {
        Some(new_col as usize)
    } else {
        None
    }
}

/// Turning to orientation `new_ori` with the axis at `(col, row)`: stay in
/// the column when the piece fits there, else kick one column away from the
/// satellite when it fits there; `None` when neither fits.  Returns the
/// axis column after the turn.  The column is taken as an `i32`, so it must
/// be below `i32::MAX - 1`.
pub fn rotation_target(board: &Board, col: usize, row: i32, new_ori: Orientation) -> (r: Option<
    usize,
>)
    requires
        board.wf(),
        col < board.config().cols,
        col < 0x7fff_fffe,
        i32::MIN < row < i32::MAX,
    ensures
        r == if spec_can_occupy(board.config(), board@, col as int, row as int, new_ori) {
            Some(col)
        } else if spec_can_occupy(
            board.config(),
            board@,
            col - new_ori.spec_offset().0,
            row as int,
            new_ori,
        ) {
            Some((col - new_ori.spec_offset().0) as usize)
        } else {
            None::<usize>
        },
{
    if can_occupy(board, col as i32, row, new_ori) {
        return Some(col);
    }
    let (dc, _) = new_ori.offset();
    let kick_col = col as i32 - dc;
    if can_occupy(board, kick_col, row, new_ori) {
        Some(kick_col as usize)
    } else {
        None
    }
}

/// The row where a falling piece with axis column `col` and orientation
/// `ori` lands: on the axis column for North, one above the satellite's
/// column for South, on the higher of the two columns sideways.  The
/// satellite column is clamped to the board.
pub fn landing_row(board: &Board, col: usize, ori: Orientation) -> (r: usize)
    requires
        board.wf(),
        col < board.config().cols,
        ori == Orientation::South ==> column_height(board.config(), board@, col as int) < usize::MAX,
    ensures
        r == landing_spec(board.config(), board@, col as int, ori),
{
    proof {
        crate::grid::lemma_column_height(board.config(), board@, col as int);
    }
    let cols = board.config().cols;
    let sat_col: usize = match ori {
        Orientation::East => if col + 1 > cols - 1 {
            cols - 1
        } else {
            col + 1
        },
        Orientation::West => if col == 0 {
            0
        } else {
            col - 1
        },
        _ => col,
    };
    let axis_height = board.column_height(col);
    let sat_height = board.column_height(sat_col);
    match ori {
        Orientation::North => axis_height,
        Orientation::South => sat_height + 1,
        _ => if axis_height >= sat_height {
            axis_height
        } else {
            sat_height
        },
    }
}

/// The lowest row a soft drop may bring the axis to: the axis column's
/// height for North, one more for South, the higher of the axis and
/// satellite columns sideways (the satellite column clamped at 0).
pub fn soft_drop_floor(board: &Board, col: usize, ori: Orientation) -> (r: usize)
    requires
        board.wf(),
        col < board.config().cols,
        ori == Orientation::South ==> column_height(board.config(), board@, col as int) < usize::MAX,
        col + ori.spec_offset().0 < board.config().cols,
    ensures
        ({
            let sc0 = col + ori.spec_offset().0;
            let sc = if sc0 < 0 {
                0
            } else {
                sc0
            };
            let ah = column_height(board.config(), board@, col as int);
            let sh = column_height(board.config(), board@, sc);
            r == match ori {
                Orientation::North => ah,
                Orientation::South => ah + 1,
                _ => if ah >= sh {
                    ah
                } else {
                    sh
                },
            }
        }),
{
    proof {
        crate::grid::lemma_column_height(board.config(), board@, col as int);
    }
    let sat_col: usize = match ori {
        Orientation::East => col + 1,
        Orientation::West => if col == 0 {
            0
        } else {
            col - 1
        },
        _ => col,
    };
    let axis_height = board.column_height(col);
    let sat_height = board.column_height(sat_col);
    match ori {
        Orientation::North => axis_height,
        Orientation::South => axis_height + 1,
        _ => if axis_height >= sat_height {
            axis_height
        } else {
            sat_height
        },
    }
}

} // verus!
