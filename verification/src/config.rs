//! Game parameters: board size and number of active colours.

use vstd::prelude::*;

verus! {

/// Minimum number of connected same-colour puyos needed for a group to clear.
pub const MIN_GROUP_SIZE: usize = 4;

/// Basic game parameters: board size and number of colours.
#[derive(Debug, Clone, Copy, PartialEq, Eq, Structural)]
pub struct GameConfig {
    /// Number of columns.
    pub cols: usize,
    /// Number of rows (visible rows plus two hidden rows at the top).
    pub rows: usize,
    /// Number of colours in play (1..=4); the first `num_colors` colours are used.
    pub num_colors: usize,
}

impl GameConfig {
    /// The parameters accepted by `GameConfig::new`.
    pub open spec fn accepted(cols: usize, rows: usize, num_colors: usize) -> bool {
        &&& cols >= 1
        &&& rows >= 3
        &&& 1 <= num_colors <= 4
    }

    /// A configuration on which boards can be built: the parameters that `new`
    /// accepts.
    pub open spec fn valid(self) -> bool {
        GameConfig::accepted(self.cols, self.rows, self.num_colors)
    }

    pub open spec fn spec_visible_rows(self) -> int {
        self.rows - 2
    }

    pub open spec fn spec_spawn_col(self) -> int {
        (self.cols - 1) / 2
    }

    pub open spec fn spec_num_actions(self) -> int {
        self.cols * 4
    }

    pub open spec fn spec_num_channels(self) -> int {
        self.num_colors + 2
    }

    pub open spec fn spec_tensor_size(self) -> int {
        (self.num_colors + 2) * self.rows * self.cols
    }

    pub open spec fn spec_piece_tensor_size(self) -> int {
        3 * 2 * self.num_colors
    }

    pub fn new(cols: usize, rows: usize, num_colors: usize) -> (c: Self)
        requires
            GameConfig::accepted(cols, rows, num_colors),
        ensures
            c.cols == cols,
            c.rows == rows,
            c.num_colors == num_colors,
    {
        GameConfig { cols, rows, num_colors }
    }

    /// Number of visible rows; the top two rows are hidden.
    pub fn visible_rows(&self) -> (r: usize)
        requires
            self.rows >= 2,
        ensures
            r == self.spec_visible_rows(),
    {
        self.rows - 2
    }

    /// Column where new pieces appear (the centre of the board).
    pub fn spawn_col(&self) -> (c: usize)
        requires
            self.cols >= 1,
        ensures
            c == self.spec_spawn_col(),
    {
        (self.cols - 1) / 2
    }

    /// Size of the action space: columns times four orientations.
    pub fn num_actions(&self) -> (n: usize)
        requires
            self.cols * 4 <= usize::MAX,
        ensures
            n == self.spec_num_actions(),
    {
        self.cols * 4
    }

    /// Input channels: one per colour, plus occupancy and adjacency.
    pub fn num_channels(&self) -> (n: usize)
        requires
            self.num_colors + 2 <= usize::MAX,
        ensures
            n == self.spec_num_channels(),
    {
        self.num_colors + 2
    }

    /// Flat size of the board tensor.
    pub fn tensor_size(&self) -> (n: usize)
        requires
            self.num_colors + 2 <= usize::MAX,
            (self.num_colors + 2) * self.rows <= usize::MAX,
            (self.num_colors + 2) * self.rows * self.cols <= usize::MAX,
        ensures
            n == self.spec_tensor_size(),
    {
        self.num_channels() * self.rows * self.cols
    }

    /// Size of the piece encoding: three pieces, two colours each, one-hot.
    pub fn piece_tensor_size(&self) -> (n: usize)
        requires
            3 * 2 * self.num_colors <= usize::MAX,
        ensures
            n == self.spec_piece_tensor_size(),
    {
        3 * 2 * self.num_colors
    }

    /// Size of the context tensor (the piece encoding).
    pub fn context_tensor_size(&self) -> (n: usize)
        requires
            3 * 2 * self.num_colors <= usize::MAX,
        ensures
            n == self.spec_piece_tensor_size(),
    {
        self.piece_tensor_size()
    }

    /// Minimum size of a clearing group.
    pub fn min_group_size(&self) -> (n: usize)
        ensures
            n == MIN_GROUP_SIZE,
    {
        MIN_GROUP_SIZE
    }
}

impl Default for GameConfig {
    /// Three columns, eight rows (six visible), three colours.
    fn default() -> (c: Self)
        ensures
            c.cols == 3,
            c.rows == 8,
            c.num_colors == 3,
    {
        GameConfig { cols: 3, rows: 8, num_colors: 3 }
    }
}

} // verus!
