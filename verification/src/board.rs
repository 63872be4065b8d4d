//! Puyo colours and the board, with gravity and chain resolution.

use vstd::prelude::*;
use crate::config::GameConfig;
use crate::chain_model::{
    chain_outcome, clear_groups, colored_count, in_some, lemma_clear_cells, lemma_clearable_facts,
    lemma_count_bound, lemma_count_clear_one, lemma_gravity_count, lemma_in_some_take, lemma_listing,
    pairwise_disjoint, step_board, step_groups, view_sig, listing, few_puyos, chain_fits, step_fits,
    lemma_outcome_nonneg, lemma_step_keeps_top,
};
use crate::score::{
    calculate_step_score, group_sig, lemma_step_score_bound, lemma_step_score_facts, step_score,
    total_cleared,
};
use crate::groups::{
    adjacent, ccolor, cgrid, cidx, closed_at, count_false, cvis, flood_inv, has_earlier_neighbor,
    is_group, lemma_count_false_update, tree_ordered, visited_ok, scan_inv, scanned, groups_view,
    group_view, is_decomposition, lemma_index_order, GroupView, clearable, bfs_add, bfs_expand,
    bfs_from, bfs_group, bfs_visit, no_marks, lemma_count_false_le, lemma_neighbor_unmarked,
};
use crate::grid::{
    cell_index, col_kept, color_at, column_height, gravity, gravity_cell, grid_ok, in_grid,
    lemma_column_height_unique, lemma_grid_ext, lemma_gravity_cells, lemma_index_bounds,
    lemma_update_cell, top_isolated, Cell, in_visible, lemma_index_injective, settled,
    lemma_gravity_settled, lemma_column_height,
};

verus! {

/// Puyo colours. `Empty` marks a cell without a puyo.
#[derive(Debug, Clone, Copy, PartialEq, Eq, Hash, Structural)]
pub enum PuyoColor {
    Empty,
    Red,
    Green,
    Blue,
    Yellow,
}

/// All colours in order (without `Empty`); the first `num_colors` are in play.
pub const ALL_COLOR_VARIANTS: [PuyoColor; 4] = [
    PuyoColor::Red,
    PuyoColor::Green,
    PuyoColor::Blue,
    PuyoColor::Yellow,
];

impl PuyoColor {
    /// The colour's number: 0 for `Empty`, then 1 to 4.
    pub open spec fn code(self) -> u8 {
        match self {
            PuyoColor::Empty => 0,
            PuyoColor::Red => 1,
            PuyoColor::Green => 2,
            PuyoColor::Blue => 3,
            PuyoColor::Yellow => 4,
        }
    }

    /// The colour with number `v`; numbers other than 1 to 4 give `Empty`.
    pub open spec fn spec_from_u8(v: u8) -> PuyoColor {
        if v == 1 {
            PuyoColor::Red
        } else if v == 2 {
            PuyoColor::Green
        } else if v == 3 {
            PuyoColor::Blue
        } else if v == 4 {
            PuyoColor::Yellow
        } else {
            PuyoColor::Empty
        }
    }

    pub fn from_u8(v: u8) -> (c: Self)
        ensures
            c == PuyoColor::spec_from_u8(v),
    {
        match v {
            1 => PuyoColor::Red,
            2 => PuyoColor::Green,
            3 => PuyoColor::Blue,
            4 => PuyoColor::Yellow,
            _ => PuyoColor::Empty,
        }
    }

    /// The colour's number (the `u8` representation of the colour).
    pub fn to_u8(self) -> (v: u8)
        ensures
            v == self.code(),
    {
        match self {
            PuyoColor::Empty => 0,
            PuyoColor::Red => 1,
            PuyoColor::Green => 2,
            PuyoColor::Blue => 3,
            PuyoColor::Yellow => 4,
        }
    }

    pub fn is_color(self) -> (b: bool)
        ensures
            b == (self != PuyoColor::Empty),
    {
        self != PuyoColor::Empty
    }

    /// The colours in play: the first `num_colors` of Red, Green, Blue, Yellow.
    pub fn active_colors(num_colors: usize) -> (s: &'static [PuyoColor])
        requires
            num_colors <= 4,
        ensures
            s@ == ALL_COLOR_VARIANTS@.subrange(0, num_colors as int),
    {
        &ALL_COLOR_VARIANTS[0..num_colors]
    }

    /// The colours in play on the fixed-size board: Red, Green, Blue.
    pub fn all_colors() -> (s: &'static [PuyoColor])
        ensures
            s@ == ALL_COLOR_VARIANTS@.subrange(0, crate::classic::board::NUM_COLORS as int),
    {
        &ALL_COLOR_VARIANTS[0..crate::classic::board::NUM_COLORS]
    }
}

pub use crate::config::MIN_GROUP_SIZE;

// ---- Chain types ----

/// A connected group of same-colour puyos.
#[derive(Debug, Clone)]
pub struct Group {
    pub color: PuyoColor,
    /// Cells as `(col, row)`.
    pub cells: Vec<(usize, usize)>,
}

/// Result of resolving all chains on a board.
#[derive(Debug, Clone)]
pub struct ChainResult {
    pub chain_count: u32,
    pub score: u32,
}

// ---- Board ----

/// Board stored column-major: cell `(col, row)` is `cells[col * rows + row]`.
/// Row 0 is the bottom; the top two rows are hidden.
#[derive(Debug, PartialEq, Eq)]
pub struct Board {
    pub config: GameConfig,
    /// The cells, column-major.
    cells: Vec<PuyoColor>,
}

impl View for Board {
    type V = Seq<PuyoColor>;

    /// The cells, column-major.
    closed spec fn view(&self) -> Seq<PuyoColor> {
        self.cells@
    }
}

impl Clone for Board {
    fn clone(&self) -> (b: Self)
        ensures
            b.config() == self.config(),
            b@ == self@,
    {
        let cells = self.cells.clone();
        assert(cells@ =~= self.cells@);
        Board { config: self.config(), cells }
    }
}

impl Board {
    /// The board's configuration.
    pub closed spec fn spec_config(&self) -> GameConfig {
        self.config
    }

    /// The board's configuration.
    #[verifier::when_used_as_spec(spec_config)]
    pub fn config(&self) -> (c: GameConfig)
        ensures
            c == self.spec_config(),
    {
        self.config
    }

    /// The board's cells have the length its configuration asks for (a
    /// length that, being a vector's, fits in a `usize`).
    pub open spec fn wf(&self) -> bool {
        &&& grid_ok(self.config(), self@)
        &&& self.config().cols * self.config().rows <= usize::MAX
    }

    pub open spec fn cell(&self, c: int, r: int) -> PuyoColor {
        color_at(self.config(), self@, c, r)
    }

    pub open spec fn spec_column_height(&self, c: int) -> int {
        column_height(self.config(), self@, c)
    }

    /// An empty board for `config`.
    pub fn new(config: &GameConfig) -> (b: Self)
        requires
            config.valid(),
            config.cols * config.rows <= usize::MAX,
        ensures
            b.wf(),
            b.config() == *config,
            b@ == Seq::new((config.cols * config.rows) as nat, |i: int| PuyoColor::Empty),
            settled(*config, b@),
    {
        let cells = vec![PuyoColor::Empty; config.cols * config.rows];
        assert(cells@ =~= Seq::new((config.cols * config.rows) as nat, |i: int| PuyoColor::Empty));
        let b = Board { cells, config: *config };
        proof {
            assert forall|c: int, r: int|
                0 <= c < config.cols && column_height(*config, b@, c) <= r < config.rows
                    - 1 implies #[trigger] color_at(*config, b@, c, r) == PuyoColor::Empty by {
                lemma_column_height(*config, b@, c);
                lemma_index_bounds(*config, c, r);
            }
        }
        b
    }

    /// A well-formed board's dimensions fit in a `usize`: its cells are a
    /// vector of `cols * rows` entries.
    pub proof fn lemma_dims(&self)
        requires
            self.wf(),
        ensures
            self.config().cols * self.config().rows <= usize::MAX,
            3 * self.config().cols <= self.config().cols * self.config().rows,
            self.config().rows <= self.config().cols * self.config().rows,
    {
        assert(self.cells.len() == self.cells@.len());
        let c = self.config().cols as int;
        let r = self.config().rows as int;
        assert(3 * c <= c * r && r <= c * r) by (nonlinear_arith)
            requires
                c >= 1,
                r >= 3,
        ;
    }

    /// Whether the board is well formed (see `wf`).
    pub fn is_well_formed(&self) -> (b: bool)
        ensures
            b == self.wf(),
    {
        let c = self.config();
        if !(c.cols >= 1 && c.rows >= 3 && 1 <= c.num_colors && c.num_colors <= 4) {
            return false;
        }
        assert(self.cells.len() == self.cells@.len());
        match c.cols.checked_mul(c.rows) {
            Some(n) => n == self.cells.len(),
            None => false,
        }
    }

    fn idx(&self, col: usize, row: usize) -> (i: usize)
        requires
            self.wf(),
            in_grid(self.config(), col as int, row as int),
        ensures
            i == cell_index(self.config(), col as int, row as int),
            i < self@.len(),
    {
        proof {
            lemma_index_bounds(self.config(), col as int, row as int);
        }
        col * self.config().rows + row
    }

    /// Height of column `col`: filled cells from the bottom up to the first gap.
    /// A puyo left in the top hidden row above a gap does not count.
    pub fn column_height(&self, col: usize) -> (h: usize)
        requires
            self.wf(),
            col < self.config().cols,
        ensures
            h == self.spec_column_height(col as int),
    {
        self.column_info(col).0
    }

    /// The column's height, and whether the top hidden row holds a puyo with an
    /// empty cell below it.
    pub fn column_info(&self, col: usize) -> (res: (usize, bool))
        requires
            self.wf(),
            col < self.config().cols,
        ensures
            res.0 == self.spec_column_height(col as int),
            res.1 == top_isolated(self.config(), self@, col as int),
    {
        let rows = self.config().rows;
        let mut row: usize = 0;
        while row < rows && self.get(col, row).is_color()
            invariant
                self.wf(),
                col < self.config().cols,
                rows == self.config().rows,
                row <= rows,
                forall|k: int|
                    0 <= k < row ==> color_at(self.config(), self@, col as int, k) != PuyoColor::Empty,
            decreases rows - row,
        {
            row += 1;
        }
        let height = row;
        proof {
            lemma_column_height_unique(self.config(), self@, col as int, height as int);
        }
        let isolated = self.get(col, rows - 1).is_color() && !self.get(col, rows - 2).is_color();
        (height, isolated)
    }

    /// Colour at `(col, row)`.
    pub fn get(&self, col: usize, row: usize) -> (c: PuyoColor)
        requires
            self.wf(),
            in_grid(self.config(), col as int, row as int),
        ensures
            c == self.cell(col as int, row as int),
    {
        self.cells[self.idx(col, row)]
    }

    /// Set the colour at `(col, row)`.
    pub fn set(&mut self, col: usize, row: usize, color: PuyoColor)
        requires
            old(self).wf(),
            in_grid(old(self).config(), col as int, row as int),
        ensures
            final(self).wf(),
            final(self).config() == old(self).config(),
            final(self)@ == old(self)@.update(
                cell_index(old(self).config(), col as int, row as int),
                color,
            ),
    {
        let idx = self.idx(col, row);
        self.cells.set(idx, color);
    }

    /// Drop a puyo into column `col`; it lands on the first empty cell above
    /// the stack, whose row is returned.  The column must not be full.
    pub fn drop_puyo(&mut self, col: usize, color: PuyoColor) -> (row: usize)
        requires
            old(self).wf(),
            col < old(self).config().cols,
            old(self).spec_column_height(col as int) < old(self).config().rows,
        ensures
            row == old(self).spec_column_height(col as int),
            final(self).wf(),
            final(self).config() == old(self).config(),
            final(self)@ == old(self)@.update(
                cell_index(old(self).config(), col as int, row as int),
                color,
            ),
    {
        let h = self.column_height(col);
        self.set(col, h, color);
        h
    }

    /// Gravity: in every column the puyos of rows `0..rows - 1` fall to fill
    /// the gaps below them, keeping their order.  The top hidden row is left as
    /// it is: a puyo there stays until the game ends.
    pub fn apply_gravity(&mut self)
        requires
            old(self).wf(),
        ensures
            final(self).wf(),
            final(self).config() == old(self).config(),
            final(self)@ == gravity(old(self).config(), old(self)@),
            settled(final(self).config(), final(self)@),
            settled(old(self).config(), old(self)@) ==> final(self)@ == old(self)@,
    {
        proof {
            lemma_gravity_settled(self.config(), self@);
            crate::grid::lemma_gravity_idempotent(self.config(), self@);
        }
        let ghost orig = self@;
        let cfg = self.config();
        let cols = self.config().cols;
        let rows = self.config().rows;
        let mut col: usize = 0;
        while col < cols
            invariant
                self.wf(),
                self.config() == cfg,
                cols == cfg.cols,
                rows == cfg.rows,
                grid_ok(cfg, orig),
                col <= cols,
                forall|c: int, r: int|
                    in_grid(cfg, c, r) && c < col ==> color_at(cfg, self@, c, r) == gravity_cell(
                        cfg,
                        orig,
                        c,
                        r,
                    ),
                forall|c: int, r: int|
                    in_grid(cfg, c, r) && c >= col ==> color_at(cfg, self@, c, r) == color_at(
                        cfg,
                        orig,
                        c,
                        r,
                    ),
            decreases cols - col,
        {
            proof {
                lemma_index_bounds(cfg, col as int, 0);
                assert forall|r: int| 0 <= r < rows implies color_at(cfg, self@, col as int, r)
                    == color_at(cfg, orig, col as int, r) by {
                    assert(in_grid(cfg, col as int, r));
                }
            }
            let base = col * rows;
            let mut write: usize = 0;
            let mut read: usize = 0;
            while read < rows - 1
                invariant
                    self.wf(),
                    self.config() == cfg,
                    cols == cfg.cols,
                    rows == cfg.rows,
                    grid_ok(cfg, orig),
                    col < cols,
                    base == cell_index(cfg, col as int, 0),
                    write <= read <= rows - 1,
                    write == col_kept(cfg, orig, col as int, read as int).len(),
                    forall|c: int, r: int|
                        in_grid(cfg, c, r) && c < col ==> color_at(cfg, self@, c, r) == gravity_cell(
                            cfg,
                            orig,
                            c,
                            r,
                        ),
                    forall|c: int, r: int|
                        in_grid(cfg, c, r) && c > col ==> color_at(cfg, self@, c, r) == color_at(
                            cfg,
                            orig,
                            c,
                            r,
                        ),
                    forall|r: int|
                        0 <= r < write ==> color_at(cfg, self@, col as int, r) == col_kept(
                            cfg,
                            orig,
                            col as int,
                            read as int,
                        )[r],
                    forall|r: int|
                        write <= r < read ==> color_at(cfg, self@, col as int, r) == PuyoColor::Empty,
                    forall|r: int|
                        read <= r < rows ==> color_at(cfg, self@, col as int, r) == color_at(
                            cfg,
                            orig,
                            col as int,
                            r,
                        ),
                decreases rows - 1 - read,
            {
                let ghost before = self@;
                proof {
                    lemma_index_bounds(cfg, col as int, read as int);
                }
                let color = self.cells[base + read];
                assert(color == color_at(cfg, orig, col as int, read as int));
                if color.is_color() {
                    proof {
                        lemma_update_cell(cfg, self@, col as int, write as int, color);
                    }
                    self.cells.set(base + write, color);
                    if write != read {
                        proof {
                            lemma_update_cell(cfg, self@, col as int, read as int, PuyoColor::Empty);
                        }
                        self.cells.set(base + read, PuyoColor::Empty);
                    }
                    write += 1;
                }
                read += 1;
            }
            proof {
                assert forall|r: int| 0 <= r < rows implies color_at(cfg, self@, col as int, r)
                    == gravity_cell(cfg, orig, col as int, r) by {
                    crate::grid::lemma_col_kept_len(cfg, orig, col as int, (rows - 1) as int);
                }
            }
            col += 1;
        }
        proof {
            lemma_gravity_cells(cfg, orig);
            lemma_grid_ext(cfg, self@, gravity(cfg, orig));
        }
    }

    /// One step of the flood fill: mark the neighbour `(nc, nr)` and append it
    /// to the cells found when it has the group's colour and is not marked yet.
    fn visit_neighbor(
        &self,
        nc: usize,
        nr: usize,
        color: PuyoColor,
        visited: &mut Vec<bool>,
        cells: &mut Vec<Cell>,
        Ghost(v0): Ghost<Seq<bool>>,
    )
        requires
            self.wf(),
            in_visible(self.config(), nc as int, nr as int),
            color != PuyoColor::Empty,
            flood_inv(self.config(), self@, color, v0, old(visited)@, old(cells)@),
            tree_ordered(old(cells)@),
            exists|j: int| 0 <= j < old(cells)@.len() && #[trigger] adjacent((nc, nr), old(cells)@[j]),
        ensures
            flood_inv(self.config(), self@, color, v0, final(visited)@, final(cells)@),
            tree_ordered(final(cells)@),
            old(cells)@.len() <= final(cells)@.len(),
            final(cells)@.subrange(0, old(cells)@.len() as int) == old(cells)@,
            forall|i: int| 0 <= i < old(visited)@.len() && old(visited)@[i] ==> final(visited)@[i],
            ccolor(self.config(), self@, (nc, nr)) == color ==> final(visited)@[cidx(
                self.config(),
                (nc, nr),
            )],
            count_false(final(visited)@) + final(cells)@.len() == count_false(old(visited)@) + old(
                cells,
            )@.len(),
            final(cells)@ == bfs_add(self.config(), self@, color, v0, old(cells)@, nc as int, nr as int),
            ccolor(self.config(), self@, (nc, nr)) != color || !v0[cidx(self.config(), (nc, nr))]
                ==> final(cells)@ == bfs_add(
                self.config(),
                self@,
                color,
                no_marks(self.config()),
                old(cells)@,
                nc as int,
                nr as int,
            ),
    {
        let ghost cfg = self.config();
        let ghost n: Cell = (nc, nr);
        proof {
            lemma_index_bounds(cfg, nc as int, nr as int);
        }
        let ni = self.idx(nc, nr);
        if !visited[ni] && self.cells[ni] == color {
            let ghost oldc = cells@;
            let ghost oldv = visited@;
            proof {
                lemma_count_false_update(visited@, ni as int);
                assert(!oldc.contains(n));
            }
            visited.set(ni, true);
            cells.push((nc, nr));
            proof {
                assert forall|x: Cell| cgrid(cfg, x) implies (visited@[cidx(cfg, x)] == (
                v0[cidx(cfg, x)] || cells@.contains(x))) by {
                    lemma_index_bounds(cfg, x.0 as int, x.1 as int);
                    if cidx(cfg, x) == ni {
                        lemma_index_injective(cfg, x.0 as int, x.1 as int, nc as int, nr as int);
                        assert(cells@[cells@.len() - 1] == n);
                    } else {
                        assert(oldv[cidx(cfg, x)] == (v0[cidx(cfg, x)] || oldc.contains(x)));
                        if oldc.contains(x) {
                            let j = choose|j: int| 0 <= j < oldc.len() && oldc[j] == x;
                            assert(cells@[j] == x);
                        }
                        if cells@.contains(x) {
                            let j = choose|j: int| 0 <= j < cells@.len() && cells@[j] == x;
                            if j == cells@.len() - 1 {
                                assert(x == n);
                            } else {
                                assert(oldc[j] == x);
                            }
                        }
                    }
                }
                assert(cells@.drop_last() =~= oldc);
                assert forall|i: int| 1 <= i < cells@.len() implies #[trigger] has_earlier_neighbor(
                    cells@,
                    i,
                ) by {
                    if i < oldc.len() {
                        assert(has_earlier_neighbor(oldc, i));
                        let j = choose|j: int| 0 <= j < i && #[trigger] adjacent(oldc[i], oldc[j]);
                        assert(adjacent(cells@[i], cells@[j]));
                    } else {
                        let j = choose|j: int|
                            0 <= j < oldc.len() && #[trigger] adjacent((nc, nr), oldc[j]);
                        assert(adjacent(cells@[i], cells@[j]));
                    }
                }
                assert(cells@.subrange(0, oldc.len() as int) =~= oldc);
                assert forall|a: int, b: int|
                    0 <= a < cells@.len() && 0 <= b < cells@.len() && a != b implies cells@[a]
                    != cells@[b] by {
                    if a == cells@.len() - 1 {
                        assert(oldc[b] == cells@[b]);
                    } else if b == cells@.len() - 1 {
                        assert(oldc[a] == cells@[a]);
                    }
                }
                assert(cells@ == oldc.push(n));
                assert(!v0[cidx(cfg, n)]);
                assert(!no_marks(cfg)[cidx(cfg, n)]);
            }
        } else {
            proof {
                assert(!no_marks(cfg)[cidx(cfg, n)]);
                if ccolor(cfg, self@, n) == color {
                    assert(cgrid(cfg, n));
                    assert(visited@[cidx(cfg, n)]);
                    assert(v0[cidx(cfg, n)] || cells@.contains(n));
                }
            }
        }
    }

    /// Flood fill from `(col, row)` through same-colour visible neighbours
    /// not marked in `visited`, in breadth-first order.  Marks the cells
    /// found in `visited`.  The cells found are connected, and hold every
    /// unmarked same-colour neighbour of each of them; when the marked cells
    /// are whole groups, they are the start's whole group.
    pub(crate) fn flood_group(&self, col: usize, row: usize, visited: &mut Vec<bool>) -> (cells: Vec<Cell>)
        requires
            self.wf(),
            in_visible(self.config(), col as int, row as int),
            self.cell(col as int, row as int) != PuyoColor::Empty,
            old(visited)@.len() == self.config().cols * self.config().rows,
            !old(visited)@[cell_index(self.config(), col as int, row as int)],
        ensures
            cells@[0] == (col, row),
            flood_inv(
                self.config(),
                self@,
                self.cell(col as int, row as int),
                old(visited)@,
                final(visited)@,
                cells@,
            ),
            tree_ordered(cells@),
            forall|i: int, n: Cell|
                0 <= i < cells@.len() && cvis(self.config(), n) && #[trigger] adjacent(cells@[i], n)
                    && ccolor(self.config(), self@, n) == self.cell(col as int, row as int) && !old(
                    visited,
                )@[cidx(self.config(), n)] ==> cells@.contains(n),
            cells@ == bfs_visit(self.config(), self@, old(visited)@, (col, row)),
            visited_ok(self.config(), self@, old(visited)@) ==> {
                &&& is_group(self.config(), self@, self.cell(col as int, row as int), cells@)
                &&& visited_ok(self.config(), self@, final(visited)@)
                &&& cells@ == bfs_group(self.config(), self@, (col, row))
            },
    {
        let ghost cfg = self.config();
        let ghost v0 = visited@;
        let ghost fuel_max: int = cfg.cols * cfg.rows;
        let ghost whole = visited_ok(cfg, self@, v0);
        proof {
            lemma_count_false_le(v0);
            reveal(bfs_group);
        }
        let cols = self.config().cols;
        let visible_rows = self.config().visible_rows();
        let color = self.get(col, row);
        let mut cells: Vec<Cell> = Vec::new();
        let start = self.idx(col, row);
        proof {
            lemma_count_false_update(visited@, start as int);
        }
        visited.set(start, true);
        cells.push((col, row));
        proof {
            assert forall|x: Cell| cgrid(cfg, x) implies (visited@[cidx(cfg, x)] == (
            v0[cidx(cfg, x)] || cells@.contains(x))) by {
                lemma_index_bounds(cfg, x.0 as int, x.1 as int);
                if cidx(cfg, x) == start {
                    lemma_index_injective(cfg, x.0 as int, x.1 as int, col as int, row as int);
                    assert(cells@[0] == x);
                }
                if cells@.contains(x) {
                    assert(cells@[0] == x);
                }
            }
        }
        let mut head: usize = 0;
        while head < cells.len()
            invariant
                self.wf(),
                cfg == self.config(),
                cols == cfg.cols,
                visible_rows == cfg.rows - 2,
                color == self.cell(col as int, row as int),
                color != PuyoColor::Empty,
                whole == visited_ok(cfg, self@, v0),
                flood_inv(cfg, self@, color, v0, visited@, cells@),
                cells@.len() >= 1,
                cells@[0] == (col, row),
                tree_ordered(cells@),
                head <= cells@.len(),
                fuel_max == cfg.cols * cfg.rows,
                count_false(visited@) + cells@.len() == count_false(v0),
                count_false(v0) <= v0.len(),
                v0.len() == fuel_max,
                bfs_from(cfg, self@, color, v0, cells@, head as int, (fuel_max - head) as nat)
                    == bfs_visit(cfg, self@, v0, (col, row)),
                whole ==> bfs_from(
                    cfg,
                    self@,
                    color,
                    no_marks(cfg),
                    cells@,
                    head as int,
                    (fuel_max - head) as nat,
                ) == bfs_visit(cfg, self@, no_marks(cfg), (col, row)),
                forall|i: int, n: Cell|
                    0 <= i < head && cvis(cfg, n) && #[trigger] adjacent(cells@[i], n) && ccolor(
                        cfg,
                        self@,
                        n,
                    ) == color ==> visited@[cidx(cfg, n)],
            decreases count_false(visited@) + cells@.len() - head,
        {
            let c = cells[head].0;
            let r = cells[head].1;
            let ghost here: Cell = (c, r);
            let ghost v_start = visited@;
            let ghost cells_start = cells@;
            let ghost ci = c as int;
            let ghost ri = r as int;
            assert(cvis(cfg, cells@[head as int]));
            proof {
                assert(!v0[cidx(cfg, here)]);
                assert(bfs_from(cfg, self@, color, v0, cells_start, head as int, (fuel_max - head) as nat)
                    == bfs_from(
                    cfg,
                    self@,
                    color,
                    v0,
                    bfs_expand(cfg, self@, color, v0, cells_start, here),
                    head + 1,
                    (fuel_max - (head + 1)) as nat,
                ));
                assert(bfs_from(cfg, self@, color, no_marks(cfg), cells_start, head as int, (fuel_max - head) as nat)
                    == bfs_from(
                    cfg,
                    self@,
                    color,
                    no_marks(cfg),
                    bfs_expand(cfg, self@, color, no_marks(cfg), cells_start, here),
                    head + 1,
                    (fuel_max - (head + 1)) as nat,
                ));
            }
            if c > 0 {
                assert(adjacent(((c - 1) as usize, r), cells@[head as int]));
                proof {
                    if whole {
                        lemma_neighbor_unmarked(cfg, self@, v0, here, ((c - 1) as usize, r));
                    }
                }
                self.visit_neighbor(c - 1, r, color, visited, &mut cells, Ghost(v0));
            }
            assert(cells@ == bfs_add(cfg, self@, color, v0, cells_start, ci - 1, ri));
            assert(whole ==> cells@ == bfs_add(cfg, self@, color, no_marks(cfg), cells_start, ci - 1, ri));
            let ghost c1 = cells@;
            if c + 1 < cols {
                assert(cells@[head as int] == cells_start[head as int]);
                assert(adjacent(((c + 1) as usize, r), cells@[head as int]));
                proof {
                    if whole {
                        lemma_neighbor_unmarked(cfg, self@, v0, here, ((c + 1) as usize, r));
                    }
                }
                self.visit_neighbor(c + 1, r, color, visited, &mut cells, Ghost(v0));
            }
            assert(cells@ == bfs_add(cfg, self@, color, v0, c1, ci + 1, ri));
            assert(whole ==> cells@ == bfs_add(cfg, self@, color, no_marks(cfg), c1, ci + 1, ri));
            let ghost c2 = cells@;
            if r > 0 {
                assert(cells@[head as int] == cells_start[head as int]);
                assert(adjacent((c, (r - 1) as usize), cells@[head as int]));
                proof {
                    if whole {
                        lemma_neighbor_unmarked(cfg, self@, v0, here, (c, (r - 1) as usize));
                    }
                }
                self.visit_neighbor(c, r - 1, color, visited, &mut cells, Ghost(v0));
            }
            assert(cells@ == bfs_add(cfg, self@, color, v0, c2, ci, ri - 1));
            assert(whole ==> cells@ == bfs_add(cfg, self@, color, no_marks(cfg), c2, ci, ri - 1));
            let ghost c3 = cells@;
            if r + 1 < visible_rows {
                assert(cells@[head as int] == cells_start[head as int]);
                assert(adjacent((c, (r + 1) as usize), cells@[head as int]));
                proof {
                    if whole {
                        lemma_neighbor_unmarked(cfg, self@, v0, here, (c, (r + 1) as usize));
                    }
                }
                self.visit_neighbor(c, r + 1, color, visited, &mut cells, Ghost(v0));
            }
            assert(cells@ == bfs_add(cfg, self@, color, v0, c3, ci, ri + 1));
            assert(whole ==> cells@ == bfs_add(cfg, self@, color, no_marks(cfg), c3, ci, ri + 1));
            assert(cells@ == bfs_expand(cfg, self@, color, v0, cells_start, here));
            assert(whole ==> cells@ == bfs_expand(cfg, self@, color, no_marks(cfg), cells_start, here));
            proof {
                assert(cells@[head as int] == cells_start[head as int]);
                assert forall|i: int, n: Cell|
                    0 <= i < head + 1 && cvis(cfg, n) && #[trigger] adjacent(cells@[i], n) && ccolor(
                        cfg,
                        self@,
                        n,
                    ) == color implies visited@[cidx(cfg, n)] by {
                    lemma_index_bounds(cfg, n.0 as int, n.1 as int);
                    if i < head {
                        assert(cells_start[i] == cells@[i]);
                        assert(v_start[cidx(cfg, n)]);
                    } else {
                        assert(cells@[i] == here);
                    }
                }
            }
            head += 1;
        }
        proof {
            assert forall|i: int, n: Cell|
                0 <= i < cells@.len() && cvis(cfg, n) && #[trigger] adjacent(cells@[i], n) && ccolor(
                    cfg,
                    self@,
                    n,
                ) == color && !v0[cidx(cfg, n)] implies cells@.contains(n) by {
                assert(visited@[cidx(cfg, n)]);
            }
            if whole {
                assert forall|i: int| 0 <= i < cells@.len() implies closed_at(
                    cfg,
                    self@,
                    color,
                    cells@,
                    #[trigger] cells@[i],
                ) by {
                    assert forall|n: Cell|
                        cvis(cfg, n) && #[trigger] adjacent(cells@[i], n) && ccolor(cfg, self@, n)
                            == color implies cells@.contains(n) by {
                        assert(visited@[cidx(cfg, n)]);
                        if v0[cidx(cfg, n)] {
                            assert(adjacent(n, cells@[i]));
                            assert(cgrid(cfg, n));
                            assert(v0[cidx(cfg, cells@[i])]);
                        }
                    }
                }
                assert forall|x: Cell, n: Cell|
                    cgrid(cfg, x) && #[trigger] visited@[cidx(cfg, x)] && cvis(cfg, n)
                        && #[trigger] adjacent(x, n) && ccolor(cfg, self@, n) == ccolor(
                        cfg,
                        self@,
                        x,
                    ) implies visited@[cidx(cfg, n)] by {
                    if !v0[cidx(cfg, x)] {
                        let i = choose|i: int| 0 <= i < cells@.len() && cells@[i] == x;
                        assert(adjacent(cells@[i], n));
                    } else {
                        assert(v0[cidx(cfg, n)]);
                    }
                }
            }
        }
        cells
    }

    /// All connected groups of same-colour puyos in the visible rows, found by
    /// a column-major scan with a breadth-first flood fill from each cell not
    /// yet in a group.  Groups of any size are returned.
    pub fn find_connected_groups(&self) -> (groups: Vec<Group>)
        requires
            self.wf(),
        ensures
            is_decomposition(self.config(), self@, groups_view(groups@)),
            groups_view(groups@) == listing(self.config(), self@),
    {
        let ghost cfg = self.config();
        let cols = self.config().cols;
        let rows = self.config().rows;
        let visible_rows = self.config().visible_rows();
        let mut visited = vec![false; cols * rows];
        let mut groups: Vec<Group> = Vec::new();
        proof {
            assert forall|x: Cell| cgrid(cfg, x) implies !visited@[cidx(cfg, x)] by {
                lemma_index_bounds(cfg, x.0 as int, x.1 as int);
            }
        }
        let mut col: usize = 0;
        while col < cols
            invariant
                self.wf(),
                cfg == self.config(),
                cols == cfg.cols,
                rows == cfg.rows,
                visible_rows == cfg.rows - 2,
                col <= cols,
                scan_inv(cfg, self@, visited@, groups_view(groups@), col as int, 0),
            decreases cols - col,
        {
            let mut row: usize = 0;
            while row < visible_rows
                invariant
                    self.wf(),
                    cfg == self.config(),
                    cols == cfg.cols,
                    rows == cfg.rows,
                    visible_rows == cfg.rows - 2,
                    col < cols,
                    row <= visible_rows,
                    scan_inv(cfg, self@, visited@, groups_view(groups@), col as int, row as int),
                decreases visible_rows - row,
            {
                let vi = self.idx(col, row);
                let ghost gs = groups_view(groups@);
                let ghost v_before = visited@;
                if self.cells[vi].is_color() && !visited[vi] {
                    let color = self.cells[vi];
                    let cells = self.flood_group(col, row, &mut visited);
                    groups.push(Group { color, cells });
                    proof {
                        let g: GroupView = (color, cells@);
                        let start: Cell = (col, row);
                        assert(groups_view(groups@) =~= gs.push(g));
                        let gs2 = groups_view(groups@);
                        assert(gs2[gs.len() as int] == g);
                        assert forall|k: int| 0 <= k < gs.len() implies gs2[k] == gs[k] by {}
                        // cells of the new group were not marked before
                        assert forall|i: int| 0 <= i < cells@.len() implies cidx(cfg, start) <= cidx(
                            cfg,
                            #[trigger] cells@[i],
                        ) by {
                            let y = cells@[i];
                            assert(cvis(cfg, y));
                            lemma_index_order(cfg, y, start);
                            if cidx(cfg, y) < cidx(cfg, start) {
                                assert(scanned(y, col as int, row as int));
                                assert(v_before[cidx(cfg, y)]);
                            }
                        }
                        assert forall|x: Cell| cgrid(cfg, x) implies (visited@[cidx(cfg, x)]
                            <==> exists|k: int| 0 <= k < gs2.len() && (#[trigger] gs2[k].1.contains(x))) by {
                            if visited@[cidx(cfg, x)] {
                                if v_before[cidx(cfg, x)] {
                                    let k = choose|k: int| 0 <= k < gs.len() && gs[k].1.contains(x);
                                    assert(gs2[k].1.contains(x));
                                } else {
                                    assert(gs2[gs.len() as int].1.contains(x));
                                }
                            }
                            if exists|k: int| 0 <= k < gs2.len() && (#[trigger] gs2[k].1.contains(x)) {
                                let k = choose|k: int| 0 <= k < gs2.len() && gs2[k].1.contains(x);
                                if k < gs.len() {
                                    assert(gs[k].1.contains(x));
                                }
                            }
                        }
                        assert forall|k1: int, k2: int, x: Cell|
                            0 <= k1 < gs2.len() && 0 <= k2 < gs2.len() && k1 != k2 && (
                            #[trigger] gs2[k1].1.contains(x)) implies !(
                            #[trigger] gs2[k2].1.contains(x)) by {
                            if k1 == gs.len() || k2 == gs.len() {
                                let kk = if k1 == gs.len() { k2 } else { k1 };
                                if gs2[k1].1.contains(x) && gs2[k2].1.contains(x) {
                                    assert(gs[kk].1.contains(x));
                                    let i = choose|i: int| 0 <= i < cells@.len() && cells@[i] == x;
                                    assert(cgrid(cfg, x));
                                    assert(v_before[cidx(cfg, x)]);
                                }
                            } else {
                                assert(gs[k1] == gs2[k1] && gs[k2] == gs2[k2]);
                            }
                        }
                        assert forall|x: Cell|
                            cvis(cfg, x) && ccolor(cfg, self@, x) != PuyoColor::Empty && scanned(
                                x,
                                col as int,
                                row + 1,
                            ) implies #[trigger] visited@[cidx(cfg, x)] by {
                            if x == start {
                                assert(cells@[0] == x);
                            } else {
                                assert(v_before[cidx(cfg, x)]);
                            }
                        }
                        assert forall|k: int, i: int|
                            0 <= k < gs2.len() && 0 <= i < gs2[k].1.len() implies cidx(
                                cfg,
                                gs2[k].1[0],
                            ) <= cidx(cfg, #[trigger] gs2[k].1[i]) by {
                            if k < gs.len() {
                                assert(gs[k] == gs2[k]);
                            }
                        }
                        assert forall|k1: int, k2: int| 0 <= k1 < k2 < gs2.len() implies cidx(
                            cfg,
                            (#[trigger] gs2[k1]).1[0],
                        ) < cidx(cfg, (#[trigger] gs2[k2]).1[0]) by {
                            assert(gs[k1] == gs2[k1]);
                            if k2 == gs.len() {
                                assert(scanned(gs[k1].1[0], col as int, row as int));
                                assert(cvis(cfg, gs[k1].1[0]));
                                lemma_index_order(cfg, gs[k1].1[0], start);
                            } else {
                                assert(gs[k2] == gs2[k2]);
                            }
                        }
                        assert forall|k: int| 0 <= k < gs2.len() implies is_group(
                            cfg,
                            self@,
                            (#[trigger] gs2[k]).0,
                            gs2[k].1,
                        ) by {
                            if k < gs.len() {
                                assert(gs[k] == gs2[k]);
                            }
                        }
                        assert forall|k: int| 0 <= k < gs2.len() implies scanned(
                            (#[trigger] gs2[k]).1[0],
                            col as int,
                            row + 1,
                        ) by {
                            if k < gs.len() {
                                assert(gs[k] == gs2[k]);
                            }
                        }
                    }
                } else {
                    proof {
                        assert forall|x: Cell|
                            cvis(cfg, x) && ccolor(cfg, self@, x) != PuyoColor::Empty && scanned(
                                x,
                                col as int,
                                row + 1,
                            ) implies #[trigger] visited@[cidx(cfg, x)] by {
                            if x.0 == col && x.1 == row {
                                assert(cidx(cfg, x) == vi);
                            }
                        }
                    }
                }
                row += 1;
            }
            proof {
                let gs = groups_view(groups@);
                assert forall|x: Cell|
                    cvis(cfg, x) && ccolor(cfg, self@, x) != PuyoColor::Empty && scanned(
                        x,
                        col + 1,
                        0,
                    ) implies #[trigger] visited@[cidx(cfg, x)] by {
                    assert(scanned(x, col as int, row as int));
                }
                assert forall|k: int| 0 <= k < gs.len() implies scanned(
                    (#[trigger] gs[k]).1[0],
                    col + 1,
                    0,
                ) by {
                    assert(scanned(gs[k].1[0], col as int, row as int));
                }
            }
            col += 1;
        }
        proof {
            reveal(is_decomposition);
            let gs = groups_view(groups@);
            assert forall|x: Cell| cvis(cfg, x) && ccolor(cfg, self@, x) != PuyoColor::Empty implies exists|
                k: int,
            | 0 <= k < gs.len() && (#[trigger] gs[k].1.contains(x)) by {
                assert(scanned(x, col as int, 0));
                assert(visited@[cidx(cfg, x)]);
            }
            lemma_listing(cfg, self@, gs);
        }
        groups
    }

    /// The connected groups of at least `MIN_GROUP_SIZE` puyos (the ones that
    /// clear), in the order `find_connected_groups` lists them.
    pub fn find_clearable_groups(&self) -> (res: Vec<Group>)
        requires
            self.wf(),
        ensures
            groups_view(res@) == step_groups(self.config(), self@),
            is_decomposition(self.config(), self@, listing(self.config(), self@)),
    {
        let min_group_size = self.config().min_group_size();
        let mut all = self.find_connected_groups();
        let ghost d = groups_view(all@);
        let ghost mut i: int = 0;
        let mut res: Vec<Group> = Vec::new();
        while all.len() > 0
            invariant
                min_group_size == 4,
                0 <= i <= d.len(),
                groups_view(all@) == d.skip(i),
                groups_view(res@) == clearable(d.take(i)),
            decreases all.len(),
        {
            let ghost before = all@;
            assert(groups_view(before).len() == before.len());
            assert(groups_view(before)[0] == group_view(before[0]));
            let g = all.remove(0);
            proof {
                assert(groups_view(all@) =~= d.skip(i + 1)) by {
                    assert forall|k: int| 0 <= k < all@.len() implies groups_view(all@)[k] == d.skip(
                        i + 1,
                    )[k] by {
                        assert(all@[k] == before[k + 1]);
                        assert(groups_view(before)[k + 1] == d.skip(i)[k + 1]);
                    }
                }
                assert(group_view(g) == d[i]);
                assert(d.take(i + 1).drop_last() =~= d.take(i));
            }
            if g.cells.len() >= min_group_size {
                res.push(g);
                proof {
                    assert(groups_view(res@) =~= clearable(d.take(i)).push(group_view(g)));
                }
            }
            proof {
                i = i + 1;
            }
        }
        assert(d.take(i) =~= d);
        res
    }

    /// One step of chain resolution: empty every group of at least
    /// `MIN_GROUP_SIZE` puyos, score them as chain `chain_num`, and apply
    /// gravity.  Returns the step's score and the groups cleared; `None`, with
    /// the board unchanged, when no group clears.
    pub(crate) fn resolve_one_step(&mut self, chain_num: u32) -> (res: Option<(u32, Vec<Group>)>)
        requires
            old(self).wf(),
            step_fits(old(self).config(), old(self)@, chain_num as int),
        ensures
            final(self).wf(),
            final(self).config() == old(self).config(),
            res is None <==> step_groups(old(self).config(), old(self)@).len() == 0,
            res is None ==> final(self)@ == old(self)@,
            forall|k: int|
                0 <= k < step_groups(old(self).config(), old(self)@).len() ==> (#[trigger] step_groups(
                    old(self).config(),
                    old(self)@,
                )[k]).1.len() >= 4,
            forall|c: int|
                0 <= c < old(self).config().cols ==> #[trigger] color_at(
                    old(self).config(),
                    final(self)@,
                    c,
                    old(self).config().rows - 1,
                ) == color_at(old(self).config(), old(self)@, c, old(self).config().rows - 1),
            res matches Some((sc, gs)) ==> {
                &&& groups_view(gs@) == step_groups(old(self).config(), old(self)@)
                &&& sc == step_score(
                    chain_num as int,
                    view_sig(step_groups(old(self).config(), old(self)@)),
                )
                &&& final(self)@ == step_board(old(self).config(), old(self)@)
                &&& colored_count(final(self)@) + total_cleared(
                    view_sig(step_groups(old(self).config(), old(self)@)),
                ) == colored_count(old(self)@)
            },
    {
        let ghost cfg = self.config();
        let ghost orig = self@;
        let groups = self.find_clearable_groups();
        let ghost gv = groups_view(groups@);
        let ghost d = listing(cfg, orig);
        proof {
            lemma_clearable_facts(cfg, orig, d);
            lemma_step_keeps_top(cfg, orig);
            assert(gv.len() == groups@.len());
        }
        if groups.len() == 0 {
            return None;
        }
        let mut gi: usize = 0;
        while gi < groups.len()
            invariant
                self.wf(),
                self.config() == cfg,
                grid_ok(cfg, orig),
                gv == groups_view(groups@),
                gv == clearable(d),
                pairwise_disjoint(gv),
                forall|k: int|
                    0 <= k < gv.len() ==> is_group(cfg, orig, (#[trigger] gv[k]).0, gv[k].1),
                gi <= groups.len(),
                forall|x: Cell|
                    #![trigger ccolor(cfg, self@, x)]
                    cgrid(cfg, x) ==> ccolor(cfg, self@, x) == if in_some(gv.take(gi as int), x) {
                        PuyoColor::Empty
                    } else {
                        ccolor(cfg, orig, x)
                    },
                colored_count(self@) + total_cleared(view_sig(gv.take(gi as int))) == colored_count(
                    orig,
                ),
            decreases groups.len() - gi,
        {
            let ghost g = gv[gi as int];
            assert(g == group_view(groups@[gi as int]));
            let mut ci: usize = 0;
            while ci < groups[gi].cells.len()
                invariant
                    self.wf(),
                    self.config() == cfg,
                    grid_ok(cfg, orig),
                    gv == groups_view(groups@),
                    gv == clearable(d),
                    pairwise_disjoint(gv),
                    forall|k: int|
                        0 <= k < gv.len() ==> is_group(cfg, orig, (#[trigger] gv[k]).0, gv[k].1),
                    gi < groups.len(),
                    g == gv[gi as int],
                    g.1 == groups@[gi as int].cells@,
                    ci <= g.1.len(),
                    forall|x: Cell|
                        #![trigger ccolor(cfg, self@, x)]
                        cgrid(cfg, x) ==> ccolor(cfg, self@, x) == if in_some(gv.take(gi as int), x)
                            || g.1.take(ci as int).contains(x) {
                            PuyoColor::Empty
                        } else {
                            ccolor(cfg, orig, x)
                        },
                    colored_count(self@) + total_cleared(view_sig(gv.take(gi as int))) + ci
                        == colored_count(orig),
                decreases g.1.len() - ci,
            {
                let col = groups[gi].cells[ci].0;
                let row = groups[gi].cells[ci].1;
                let ghost x: Cell = (col, row);
                proof {
                    assert(x == g.1[ci as int]);
                    assert(is_group(cfg, orig, g.0, g.1));
                    assert(cvis(cfg, x) && ccolor(cfg, orig, x) == g.0);
                    assert(g.1.contains(x));
                    if in_some(gv.take(gi as int), x) {
                        let k = choose|k: int|
                            0 <= k < gv.take(gi as int).len() && (#[trigger] gv.take(
                                gi as int,
                            )[k].1.contains(x));
                        assert(gv.take(gi as int)[k] == gv[k]);
                        assert(gv[gi as int].1.contains(x));
                    }
                    let t0 = g.1.take(ci as int);
                    if t0.contains(x) {
                        let j = choose|j: int| 0 <= j < t0.len() && t0[j] == x;
                        assert(g.1[j] == g.1[ci as int]);
                    }
                    assert(ccolor(cfg, self@, x) == g.0);
                    lemma_index_bounds(cfg, col as int, row as int);
                    lemma_count_clear_one(self@, cidx(cfg, x));
                    lemma_update_cell(cfg, self@, col as int, row as int, PuyoColor::Empty);
                }
                let ghost before = self@;
                self.set(col, row, PuyoColor::Empty);
                proof {
                    let t0 = g.1.take(ci as int);
                    let t1 = g.1.take(ci + 1);
                    assert(t1 =~= t0.push(x));
                    assert forall|y: Cell| cgrid(cfg, y) implies #[trigger] ccolor(cfg, self@, y)
                        == if in_some(gv.take(gi as int), y) || t1.contains(y) {
                        PuyoColor::Empty
                    } else {
                        ccolor(cfg, orig, y)
                    } by {
                        assert(self@ == before.update(
                            cell_index(cfg, col as int, row as int),
                            PuyoColor::Empty,
                        ));
                        assert(color_at(
                            cfg,
                            before.update(cell_index(cfg, col as int, row as int), PuyoColor::Empty),
                            y.0 as int,
                            y.1 as int,
                        ) == if y.0 == col && y.1 == row {
                            PuyoColor::Empty
                        } else {
                            color_at(cfg, before, y.0 as int, y.1 as int)
                        });
                        assert(ccolor(cfg, before, y) == ccolor(cfg, before, y));
                        if t1.contains(y) && y != x {
                            let j = choose|j: int| 0 <= j < t1.len() && t1[j] == y;
                            assert(t0[j] == y);
                        }
                        if t0.contains(y) {
                            let j = choose|j: int| 0 <= j < t0.len() && t0[j] == y;
                            assert(t1[j] == y);
                        }
                        if y == x {
                            assert(t1[ci as int] == x);
                            assert(ccolor(cfg, self@, y) == PuyoColor::Empty);
                        } else {
                            assert(ccolor(cfg, self@, y) == ccolor(cfg, before, y));
                            assert(ccolor(cfg, before, y) == if in_some(gv.take(gi as int), y) || t0.contains(y) {
                                PuyoColor::Empty
                            } else {
                                ccolor(cfg, orig, y)
                            });
                            assert(t1.contains(y) == t0.contains(y));
                        }
                    }
                }
                ci += 1;
            }
            proof {
                assert(g.1.take(ci as int) =~= g.1);
                assert forall|y: Cell| cgrid(cfg, y) implies #[trigger] ccolor(cfg, self@, y) == if in_some(
                    gv.take(gi + 1),
                    y,
                ) {
                    PuyoColor::Empty
                } else {
                    ccolor(cfg, orig, y)
                } by {
                    lemma_in_some_take(gv, gi as int, y);
                }
                lemma_in_some_take(gv, gi as int, (0, 0));
            }
            gi += 1;
        }
        proof {
            assert(gv.take(gi as int) =~= gv);
            lemma_clear_cells(cfg, orig, gv);
            assert forall|c: int, r: int| in_grid(cfg, c, r) implies color_at(cfg, self@, c, r)
                == color_at(cfg, clear_groups(cfg, orig, gv), c, r) by {
                let x: Cell = (c as usize, r as usize);
                assert(cgrid(cfg, x));
                assert(ccolor(cfg, self@, x) == ccolor(cfg, clear_groups(cfg, orig, gv), x));
            }
            lemma_grid_ext(cfg, self@, clear_groups(cfg, orig, gv));
            assert(group_sig(groups@) =~= view_sig(gv));
            assert forall|k: int| 0 <= k < view_sig(gv).len() implies (#[trigger] view_sig(
                gv,
            )[k]).1 >= 4 by {
                assert(gv[k].1.len() >= 4);
            }
            lemma_step_score_bound(chain_num as int, view_sig(gv));
            lemma_step_score_facts(chain_num as int, view_sig(gv));
            let t = total_cleared(view_sig(gv));
            let n = colored_count(orig);
            assert(t <= n);
            if few_puyos(orig) {
                assert(6840 * t + 25 * t * t <= 6840 * n + 25 * n * n) by (nonlinear_arith)
                    requires
                        0 <= t <= n,
                ;
            }
        }
        let step_score = calculate_step_score(chain_num, groups.as_slice());
        proof {
            lemma_gravity_count(cfg, self@);
        }
        self.apply_gravity();
        Some((step_score, groups))
    }

    /// Resolve every chain on the board: clear, score and apply gravity step
    /// by step until no group of `MIN_GROUP_SIZE` puyos is left.  Returns the
    /// number of chains and the total score.
    pub fn resolve_chains(&mut self) -> (res: ChainResult)
        requires
            old(self).wf(),
            chain_fits(old(self).config(), old(self)@),
        ensures
            final(self).wf(),
            final(self).config() == old(self).config(),
            res.chain_count == chain_outcome(old(self).config(), old(self)@, 1).0,
            res.score == chain_outcome(old(self).config(), old(self)@, 1).1,
            final(self)@ == chain_outcome(old(self).config(), old(self)@, 1).2,
            settled(old(self).config(), old(self)@) ==> settled(final(self).config(), final(self)@),
            res.chain_count > 0 ==> settled(final(self).config(), final(self)@),
            step_groups(final(self).config(), final(self)@).len() == 0,
            res.chain_count == 0 <==> step_groups(old(self).config(), old(self)@).len() == 0,
            res.chain_count == 0 ==> final(self)@ == old(self)@,
            chain_outcome(final(self).config(), final(self)@, 1) == (0nat, 0int, final(self)@),
            forall|c: int|
                0 <= c < old(self).config().cols ==> #[trigger] color_at(
                    old(self).config(),
                    final(self)@,
                    c,
                    old(self).config().rows - 1,
                ) == color_at(old(self).config(), old(self)@, c, old(self).config().rows - 1),
    {
        proof {
            crate::chain_model::lemma_chain_settled(self.config(), self@, 1);
        }
        let ghost cfg = self.config();
        let ghost orig = self@;
        let ghost n0 = colored_count(orig);
        proof {
            lemma_count_bound(orig);
        }
        let mut chain_count: u32 = 0;
        let mut score: u32 = 0;
        let mut chain_num: u32 = 1;
        let mut done = false;
        while !done
            invariant
                self.wf(),
                self.config() == cfg,
                n0 == colored_count(orig),
                chain_fits(cfg, orig),
                colored_count(self@) <= n0,
                forall|c: int|
                    0 <= c < cfg.cols ==> #[trigger] color_at(cfg, self@, c, cfg.rows - 1) == color_at(
                        cfg,
                        orig,
                        c,
                        cfg.rows - 1,
                    ),
                chain_num == chain_count + 1,
                4 * chain_count <= n0 - colored_count(self@),
                40 * chain_count <= score,
                score <= 6840 * (n0 - colored_count(self@)) + 25 * (n0 - colored_count(self@)) * (n0
                    - colored_count(self@)),
                done ==> step_groups(cfg, self@).len() == 0,
                chain_outcome(cfg, orig, 1) == ({
                    let rest = chain_outcome(cfg, self@, chain_num as int);
                    ((chain_count + rest.0) as nat, score + rest.1, rest.2)
                }),
            decreases colored_count(self@) + if done {
                0int
            } else {
                1int
            },
        {
            let ghost before = self@;
            proof {
                let sig0 = view_sig(step_groups(cfg, before));
                let c = colored_count(before);
                if few_puyos(orig) {
                    assert(6840 * c + 25 * c * c <= 6840 * n0 + 25 * n0 * n0) by (nonlinear_arith)
                        requires
                            0 <= c <= n0,
                    ;
                } else if step_groups(cfg, before).len() > 0 {
                    let s2 = step_board(cfg, before);
                    lemma_step_score_facts(chain_num as int, sig0);
                    lemma_outcome_nonneg(cfg, s2, chain_num + 1);
                    lemma_outcome_nonneg(cfg, before, chain_num as int);
                    assert(chain_outcome(cfg, before, chain_num as int).1 >= step_score(
                        chain_num as int,
                        sig0,
                    ));
                }
                assert(step_fits(cfg, before, chain_num as int));
            }
            match self.resolve_one_step(chain_num) {
                Some((step_score, _groups)) => {
                    proof {
                        let sig = view_sig(step_groups(cfg, before));
                        let t = total_cleared(sig);
                        let m = n0 - colored_count(before);
                        assert forall|k: int| 0 <= k < sig.len() implies (#[trigger] sig[k]).1 >= 4 by {
                            assert(step_groups(cfg, before)[k].1.len() >= 4);
                        }
                        lemma_step_score_bound(chain_num as int, sig);
                        lemma_step_score_facts(chain_num as int, sig);
                        assert(t >= 4);
                        assert(step_score >= 40);
                        assert(score + step_score <= 6840 * (m + t) + 25 * (m + t) * (m + t)) by (nonlinear_arith)
                            requires
                                score <= 6840 * m + 25 * m * m,
                                step_score <= 6840 * t + 25 * t * t,
                                m >= 0,
                                t >= 0,
                        ;
                        if few_puyos(orig) {
                            assert(6840 * (m + t) + 25 * (m + t) * (m + t) <= 6840 * n0 + 25 * n0 * n0)
                                by (nonlinear_arith)
                                requires
                                    0 <= m + t <= n0,
                            ;
                        } else {
                            let s2 = step_board(cfg, before);
                            lemma_outcome_nonneg(cfg, s2, chain_num + 1);
                            assert(chain_outcome(cfg, before, chain_num as int).1 >= step_score);
                        }
                    }
                    chain_count += 1;
                    score += step_score;
                    chain_num += 1;
                },
                None => {
                    done = true;
                },
            }
        }
        proof {
            crate::chain_model::lemma_resolved_is_stable(cfg, self@, 1);
        }
        ChainResult { chain_count, score }
    }

    /// Game over: the spawn column's stack reaches the hidden rows.
    pub open spec fn spec_is_game_over(&self) -> bool {
        self.spec_column_height(self.config().spec_spawn_col()) >= self.config().spec_visible_rows()
    }

    pub fn is_game_over(&self) -> (b: bool)
        requires
            self.wf(),
        ensures
            b == self.spec_is_game_over(),
    {
        self.column_height(self.config().spawn_col()) >= self.config().visible_rows()
    }

    /// The cells' colour numbers, column-major, bottom to top.
    pub fn to_flat(&self) -> (v: Vec<u8>)
        requires
            self.wf(),
        ensures
            v@ == self@.map_values(|c: PuyoColor| c.code()),
    {
        let mut v: Vec<u8> = Vec::new();
        let mut i: usize = 0;
        while i < self.cells.len()
            invariant
                i <= self.cells.len(),
                v@ == self.cells@.subrange(0, i as int).map_values(|c: PuyoColor| c.code()),
            decreases self.cells.len() - i,
        {
            v.push(self.cells[i].to_u8());
            assert(self.cells@.subrange(0, i + 1) =~= self.cells@.subrange(0, i as int).push(
                self.cells@[i as int],
            ));
            i += 1;
        }
        assert(self.cells@.subrange(0, i as int) =~= self.cells@);
        v
    }
}

impl Default for Board {
    /// An empty board for the default configuration.
    fn default() -> (b: Self)
        ensures
            b.wf(),
            b.config() == (GameConfig { cols: 3, rows: 8, num_colors: 3 }),
            b@ == Seq::new(24, |i: int| PuyoColor::Empty),
    {
        let c = GameConfig::default();
        Self::new(&c)
    }
}

} // verus!
