//! The fixed-size board: 3 columns of 8 rows (6 visible rows and 2 hidden
//! rows on top), with 3 colours in play.

use vstd::prelude::*;
use crate::chain_model::{chain_outcome, listing, step_groups};
use crate::config::GameConfig;
use crate::grid::{cell_index, column_height, gravity, top_isolated};
use crate::groups::{groups_view, is_decomposition};

pub use crate::board::{ChainResult, Group, PuyoColor};
pub use crate::config::MIN_GROUP_SIZE;

verus! {

/// Number of columns.
pub const COLS: usize = 3;

/// Number of rows: the visible rows plus two hidden rows on top.
pub const ROWS: usize = 8;

/// Number of visible rows.
pub const VISIBLE_ROWS: usize = 6;

/// Spawn column: the centre column.
pub const SPAWN_COL: usize = (COLS - 1) / 2;

/// Number of colours in play (Red, Green, Blue).
pub const NUM_COLORS: usize = 3;

/// The parameters of the fixed-size board.
pub open spec fn classic_config() -> GameConfig {
    GameConfig { cols: COLS, rows: ROWS, num_colors: NUM_COLORS }
}

/// Board of `COLS` columns and `ROWS` rows, stored column-major; row 0 is
/// the bottom.
#[derive(Debug, PartialEq, Eq)]
pub struct Board {
    /// The cells, on a board of the fixed configuration.
    pub grid: crate::board::Board,
}

impl View for Board {
    type V = Seq<PuyoColor>;

    /// The cells, column-major.
    open spec fn view(&self) -> Seq<PuyoColor> {
        self.grid@
    }
}

impl Clone for Board {
    fn clone(&self) -> (b: Self)
        ensures
            b.grid.config() == self.grid.config(),
            b@ == self@,
    {
        Board { grid: self.grid.clone() }
    }
}

impl Board {
    /// The board has the fixed configuration and the right number of cells.
    pub open spec fn wf(&self) -> bool {
        &&& self.grid.wf()
        &&& self.grid.config() == classic_config()
    }

    /// Whether the board is well formed (see `wf`).
    pub fn is_well_formed(&self) -> (b: bool)
        ensures
            b == self.wf(),
    {
        let c = self.grid.config();
        self.grid.is_well_formed() && c.cols == COLS && c.rows == ROWS && c.num_colors == NUM_COLORS
    }

    /// An empty board.
    pub fn new() -> (b: Self)
        ensures
            b.wf(),
            b@ == Seq::new((COLS * ROWS) as nat, |i: int| PuyoColor::Empty),
    {
        let config = GameConfig { cols: COLS, rows: ROWS, num_colors: NUM_COLORS };
        Board { grid: crate::board::Board::new(&config) }
    }

    /// Height of column `col`: filled cells from the bottom up to the first
    /// gap.  A puyo left in the top hidden row above a gap does not count.
    pub fn column_height(&self, col: usize) -> (h: usize)
        requires
            self.wf(),
            col < COLS,
        ensures
            h == column_height(classic_config(), self@, col as int),
    {
        self.grid.column_height(col)
    }

    /// The column's height, and whether the top hidden row holds a puyo with
    /// an empty cell below it.
    pub fn column_info(&self, col: usize) -> (res: (usize, bool))
        requires
            self.wf(),
            col < COLS,
        ensures
            res.0 == column_height(classic_config(), self@, col as int),
            res.1 == top_isolated(classic_config(), self@, col as int),
    {
        self.grid.column_info(col)
    }

    /// Colour at `(col, row)`.
    pub fn get(&self, col: usize, row: usize) -> (c: PuyoColor)
        requires
            self.wf(),
            col < COLS,
            row < ROWS,
        ensures
            c == self@[cell_index(classic_config(), col as int, row as int)],
    {
        self.grid.get(col, row)
    }

    /// Set the colour at `(col, row)`.
    pub fn set(&mut self, col: usize, row: usize, color: PuyoColor)
        requires
            old(self).wf(),
            col < COLS,
            row < ROWS,
        ensures
            final(self).wf(),
            final(self)@ == old(self)@.update(
                cell_index(classic_config(), col as int, row as int),
                color,
            ),
    {
        self.grid.set(col, row, color)
    }

    /// Drop a puyo into column `col`; returns the row it lands on.  The column
    /// must not be full.
    pub fn drop_puyo(&mut self, col: usize, color: PuyoColor) -> (row: usize)
        requires
            old(self).wf(),
            col < COLS,
            column_height(classic_config(), old(self)@, col as int) < ROWS,
        ensures
            final(self).wf(),
            row == column_height(classic_config(), old(self)@, col as int),
            final(self)@ == old(self)@.update(
                cell_index(classic_config(), col as int, row as int),
                color,
            ),
    {
        self.grid.drop_puyo(col, color)
    }

    /// Gravity on rows `0..ROWS - 1`; the top hidden row is left as it is.
    pub fn apply_gravity(&mut self)
        requires
            old(self).wf(),
        ensures
            final(self).wf(),
            final(self)@ == gravity(classic_config(), old(self)@),
    {
        self.grid.apply_gravity()
    }

    /// Game over: the spawn column's stack reaches the hidden rows.
    pub fn is_game_over(&self) -> (b: bool)
        requires
            self.wf(),
        ensures
            b == (column_height(classic_config(), self@, SPAWN_COL as int) >= VISIBLE_ROWS),
    {
        self.grid.is_game_over()
    }

    /// The cells' colour numbers, column-major, bottom to top.
    pub fn to_flat(&self) -> (v: Vec<u8>)
        requires
            self.wf(),
        ensures
            v@ == self@.map_values(|c: PuyoColor| c.code()),
    {
        self.grid.to_flat()
    }

    /// All connected same-colour groups in the visible rows, any size.
    pub fn find_connected_groups(&self) -> (groups: Vec<Group>)
        requires
            self.wf(),
        ensures
            is_decomposition(classic_config(), self@, groups_view(groups@)),
            groups_view(groups@) == listing(classic_config(), self@),
    {
        self.grid.find_connected_groups()
    }

    /// The connected groups of at least `MIN_GROUP_SIZE` puyos.
    pub fn find_clearable_groups(&self) -> (res: Vec<Group>)
        requires
            self.wf(),
        ensures
            groups_view(res@) == step_groups(classic_config(), self@),
            is_decomposition(classic_config(), self@, listing(classic_config(), self@)),
    {
        self.grid.find_clearable_groups()
    }

    /// Resolve every chain; returns the number of chains and the total score.
    pub fn resolve_chains(&mut self) -> (res: ChainResult)
        requires
            old(self).wf(),
        ensures
            final(self).wf(),
            res.chain_count == chain_outcome(classic_config(), old(self)@, 1).0,
            res.score == chain_outcome(classic_config(), old(self)@, 1).1,
            final(self)@ == chain_outcome(classic_config(), old(self)@, 1).2,
            step_groups(classic_config(), final(self)@).len() == 0,
    {
        proof {
            lemma_few_puyos(self@);
        }
        self.grid.resolve_chains()
    }
}

impl Default for Board {
    fn default() -> (b: Self)
        ensures
            b.wf(),
            b@ == Seq::new((COLS * ROWS) as nat, |i: int| PuyoColor::Empty),
    {
        Self::new()
    }
}

/// A fixed-size board holds at most 24 puyos, few enough for every chain
/// score to fit in a `u32`.
pub proof fn lemma_few_puyos(s: Seq<PuyoColor>)
    requires
        s.len() == COLS * ROWS,
    ensures
        crate::chain_model::few_puyos(s),
{
    crate::chain_model::lemma_count_bound(s);
    let n = crate::chain_model::colored_count(s);
    assert(6840 * n + 25 * n * n <= 6840 * 24 + 25 * 24 * 24) by (nonlinear_arith)
        requires
            0 <= n <= 24,
    ;
}

} // verus!
