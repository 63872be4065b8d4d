//! The mathematical model of a board: a column-major sequence of cells,
//! `cells[col * rows + row]`, row 0 at the bottom.

use vstd::prelude::*;
use crate::board::PuyoColor;
use crate::config::GameConfig;

verus! {

/// A cell position `(col, row)`.
pub type Cell = (usize, usize);

/// Position of cell `(c, r)` in the column-major sequence.
pub open spec fn cell_index(cfg: GameConfig, c: int, r: int) -> int {
    c * cfg.rows + r
}

/// Colour of cell `(c, r)`.
pub open spec fn color_at(cfg: GameConfig, s: Seq<PuyoColor>, c: int, r: int) -> PuyoColor {
    s[cell_index(cfg, c, r)]
}

pub open spec fn in_grid(cfg: GameConfig, c: int, r: int) -> bool {
    0 <= c < cfg.cols && 0 <= r < cfg.rows
}

/// The visible rows are all rows but the top two; only they take part in chains.
pub open spec fn in_visible(cfg: GameConfig, c: int, r: int) -> bool {
    0 <= c < cfg.cols && 0 <= r < cfg.rows - 2
}

/// A sequence of the right length for a board of this configuration.
pub open spec fn grid_ok(cfg: GameConfig, s: Seq<PuyoColor>) -> bool {
    cfg.valid() && s.len() == cfg.cols * cfg.rows
}

/// The index of a cell lies inside the board, below the next column.
pub proof fn lemma_index_bounds(cfg: GameConfig, c: int, r: int)
    requires
        in_grid(cfg, c, r),
    ensures
        0 <= cell_index(cfg, c, r) < cfg.cols * cfg.rows,
        c * cfg.rows + cfg.rows <= cfg.cols * cfg.rows,
{
    let rows = cfg.rows as int;
    let cols = cfg.cols as int;
    assert(c * rows >= 0) by (nonlinear_arith)
        requires
            c >= 0,
            rows >= 0,
    ;
    assert((c + 1) * rows <= cols * rows) by (nonlinear_arith)
        requires
            c + 1 <= cols,
            rows >= 0,
    ;
    assert((c + 1) * rows == c * rows + rows) by (nonlinear_arith);
}

/// Different cells have different indices.
pub proof fn lemma_index_injective(cfg: GameConfig, c1: int, r1: int, c2: int, r2: int)
    requires
        in_grid(cfg, c1, r1),
        in_grid(cfg, c2, r2),
        cell_index(cfg, c1, r1) == cell_index(cfg, c2, r2),
    ensures
        c1 == c2,
        r1 == r2,
{
    assert(c1 == c2) by (nonlinear_arith)
        requires
            0 <= r1 < cfg.rows,
            0 <= r2 < cfg.rows,
            c1 * cfg.rows + r1 == c2 * cfg.rows + r2,
    {
        if c1 < c2 {
            assert(c1 * cfg.rows + cfg.rows <= c2 * cfg.rows);
        } else if c2 < c1 {
            assert(c2 * cfg.rows + cfg.rows <= c1 * cfg.rows);
        }
    }
}

/// Every index of the sequence is the index of exactly one cell.
pub proof fn lemma_index_decompose(cfg: GameConfig, i: int)
    requires
        cfg.rows > 0,
        0 <= i < cfg.cols * cfg.rows,
    ensures
        in_grid(cfg, i / cfg.rows as int, i % cfg.rows as int),
        cell_index(cfg, i / cfg.rows as int, i % cfg.rows as int) == i,
{
    let rows = cfg.rows as int;
    vstd::arithmetic::div_mod::lemma_fundamental_div_mod(i, rows);
    vstd::arithmetic::div_mod::lemma_mod_bound(i, rows);
    vstd::arithmetic::div_mod::lemma_div_pos_is_pos(i, rows);
    assert(i / rows < cfg.cols) by (nonlinear_arith)
        requires
            i == rows * (i / rows) + i % rows,
            0 <= i % rows,
            i < cfg.cols * rows,
            rows > 0,
    ;
}

/// The column and row of a cell are its index divided by and modulo the rows.
pub proof fn lemma_index_recompose(cfg: GameConfig, c: int, r: int)
    requires
        in_grid(cfg, c, r),
    ensures
        cell_index(cfg, c, r) / cfg.rows as int == c,
        cell_index(cfg, c, r) % cfg.rows as int == r,
{
    vstd::arithmetic::div_mod::lemma_fundamental_div_mod_converse(
        c * cfg.rows + r,
        cfg.rows as int,
        c,
        r,
    );
}

/// Writing one cell changes that cell and no other.
pub proof fn lemma_update_cell(cfg: GameConfig, s: Seq<PuyoColor>, c0: int, r0: int, v: PuyoColor)
    requires
        s.len() == cfg.cols * cfg.rows,
        in_grid(cfg, c0, r0),
    ensures
        forall|c: int, r: int|
            #![trigger color_at(cfg, s.update(cell_index(cfg, c0, r0), v), c, r)]
            in_grid(cfg, c, r) ==> color_at(cfg, s.update(cell_index(cfg, c0, r0), v), c, r) == if c
                == c0 && r == r0 {
                v
            } else {
                color_at(cfg, s, c, r)
            },
{
    lemma_index_bounds(cfg, c0, r0);
    assert forall|c: int, r: int| in_grid(cfg, c, r) implies color_at(
        cfg,
        s.update(cell_index(cfg, c0, r0), v),
        c,
        r,
    ) == if c == c0 && r == r0 {
        v
    } else {
        color_at(cfg, s, c, r)
    } by {
        lemma_index_bounds(cfg, c, r);
        if cell_index(cfg, c, r) == cell_index(cfg, c0, r0) {
            lemma_index_injective(cfg, c, r, c0, r0);
        }
    }
}

/// Two boards of one configuration are equal when all their cells are.
pub proof fn lemma_grid_ext(cfg: GameConfig, s: Seq<PuyoColor>, t: Seq<PuyoColor>)
    requires
        cfg.rows > 0,
        s.len() == cfg.cols * cfg.rows,
        t.len() == cfg.cols * cfg.rows,
        forall|c: int, r: int| in_grid(cfg, c, r) ==> color_at(cfg, s, c, r) == color_at(cfg, t, c, r),
    ensures
        s == t,
{
    assert forall|i: int| 0 <= i < s.len() implies s[i] == t[i] by {
        lemma_index_decompose(cfg, i);
        let c = i / cfg.rows as int;
        let r = i % cfg.rows as int;
        assert(color_at(cfg, s, c, r) == color_at(cfg, t, c, r));
    }
    assert(s =~= t);
}

// ---- Column height ----

/// Height of the stack in column `c` counted from row `r` upward: the first
/// empty row at or above `r`, or `rows` when there is none.
pub open spec fn height_from(cfg: GameConfig, s: Seq<PuyoColor>, c: int, r: int) -> int
    decreases cfg.rows - r,
{
    if r >= cfg.rows {
        cfg.rows as int
    } else if color_at(cfg, s, c, r) == PuyoColor::Empty {
        r
    } else {
        height_from(cfg, s, c, r + 1)
    }
}

/// Height of column `c`: the number of filled cells from the bottom up to the
/// first empty cell.  A puyo resting above a gap does not count.
pub open spec fn column_height(cfg: GameConfig, s: Seq<PuyoColor>, c: int) -> int {
    height_from(cfg, s, c, 0)
}

/// Column `c` holds a puyo in the top hidden row with an empty cell below it.
pub open spec fn top_isolated(cfg: GameConfig, s: Seq<PuyoColor>, c: int) -> bool {
    &&& color_at(cfg, s, c, cfg.rows - 1) != PuyoColor::Empty
    &&& color_at(cfg, s, c, cfg.rows - 2) == PuyoColor::Empty
}

/// The run of puyos upward from row `r` ends at an empty cell or the top.
pub proof fn lemma_height_from(cfg: GameConfig, s: Seq<PuyoColor>, c: int, r: int)
    requires
        0 <= r <= cfg.rows,
    ensures
        r <= height_from(cfg, s, c, r) <= cfg.rows,
        forall|k: int| r <= k < height_from(cfg, s, c, r) ==> color_at(cfg, s, c, k) != PuyoColor::Empty,
        height_from(cfg, s, c, r) < cfg.rows ==> color_at(cfg, s, c, height_from(cfg, s, c, r))
            == PuyoColor::Empty,
    decreases cfg.rows - r,
{
    if r < cfg.rows && color_at(cfg, s, c, r) != PuyoColor::Empty {
        lemma_height_from(cfg, s, c, r + 1);
    }
}

/// The height of a column is the first empty row, or `rows`.
pub proof fn lemma_column_height(cfg: GameConfig, s: Seq<PuyoColor>, c: int)
    ensures
        0 <= column_height(cfg, s, c) <= cfg.rows,
        forall|k: int| 0 <= k < column_height(cfg, s, c) ==> color_at(cfg, s, c, k) != PuyoColor::Empty,
        column_height(cfg, s, c) < cfg.rows ==> color_at(cfg, s, c, column_height(cfg, s, c))
            == PuyoColor::Empty,
{
    lemma_height_from(cfg, s, c, 0);
}

/// The height is determined by the first empty row.
pub proof fn lemma_column_height_unique(cfg: GameConfig, s: Seq<PuyoColor>, c: int, h: int)
    requires
        0 <= h <= cfg.rows,
        forall|k: int| 0 <= k < h ==> color_at(cfg, s, c, k) != PuyoColor::Empty,
        h < cfg.rows ==> color_at(cfg, s, c, h) == PuyoColor::Empty,
    ensures
        column_height(cfg, s, c) == h,
{
    lemma_column_height(cfg, s, c);
    let hh = column_height(cfg, s, c);
    if hh < h {
        assert(color_at(cfg, s, c, hh) != PuyoColor::Empty);
    } else if h < hh {
        assert(color_at(cfg, s, c, h) != PuyoColor::Empty);
    }
}

// ---- Gravity ----

/// The filled cells among rows `0..n` of column `c`, bottom to top.
pub open spec fn col_kept(cfg: GameConfig, s: Seq<PuyoColor>, c: int, n: int) -> Seq<PuyoColor>
    decreases n,
{
    if n <= 0 {
        Seq::empty()
    } else if color_at(cfg, s, c, n - 1) != PuyoColor::Empty {
        col_kept(cfg, s, c, n - 1).push(color_at(cfg, s, c, n - 1))
    } else {
        col_kept(cfg, s, c, n - 1)
    }
}

/// Colour of cell `(c, r)` after gravity: the filled cells of rows
/// `0..rows - 1` of the column settle at the bottom in their order; the top
/// hidden row `rows - 1` stays as it was.
pub open spec fn gravity_cell(cfg: GameConfig, s: Seq<PuyoColor>, c: int, r: int) -> PuyoColor {
    if r == cfg.rows - 1 {
        color_at(cfg, s, c, r)
    } else {
        let kept = col_kept(cfg, s, c, cfg.rows - 1);
        if r < kept.len() {
            kept[r]
        } else {
            PuyoColor::Empty
        }
    }
}

/// The whole board after gravity.
pub open spec fn gravity(cfg: GameConfig, s: Seq<PuyoColor>) -> Seq<PuyoColor> {
    Seq::new(s.len(), |i: int| gravity_cell(cfg, s, i / cfg.rows as int, i % cfg.rows as int))
}

/// Gravity, cell by cell.
pub proof fn lemma_gravity_cells(cfg: GameConfig, s: Seq<PuyoColor>)
    requires
        cfg.rows > 0,
        s.len() == cfg.cols * cfg.rows,
    ensures
        gravity(cfg, s).len() == s.len(),
        forall|c: int, r: int|
            #![trigger color_at(cfg, gravity(cfg, s), c, r)]
            in_grid(cfg, c, r) ==> color_at(cfg, gravity(cfg, s), c, r) == gravity_cell(cfg, s, c, r),
{
    assert forall|c: int, r: int| in_grid(cfg, c, r) implies color_at(cfg, gravity(cfg, s), c, r)
        == gravity_cell(cfg, s, c, r) by {
        lemma_index_bounds(cfg, c, r);
        lemma_index_recompose(cfg, c, r);
    }
}

/// The puyos kept from a column below row `n` number at most `n`, none empty.
pub proof fn lemma_col_kept_len(cfg: GameConfig, s: Seq<PuyoColor>, c: int, n: int)
    ensures
        col_kept(cfg, s, c, n).len() <= if n < 0 { 0 } else { n },
        forall|k: int|
            0 <= k < col_kept(cfg, s, c, n).len() ==> #[trigger] col_kept(cfg, s, c, n)[k]
                != PuyoColor::Empty,
    decreases n,
{
    if n > 0 {
        lemma_col_kept_len(cfg, s, c, n - 1);
    }
}

/// `col_kept` looks only at the cells of its column below row `n`.
pub proof fn lemma_col_kept_frame(
    cfg: GameConfig,
    s: Seq<PuyoColor>,
    t: Seq<PuyoColor>,
    c: int,
    n: int,
)
    requires
        forall|k: int| 0 <= k < n ==> color_at(cfg, s, c, k) == color_at(cfg, t, c, k),
    ensures
        col_kept(cfg, s, c, n) == col_kept(cfg, t, c, n),
    decreases n,
{
    if n > 0 {
        lemma_col_kept_frame(cfg, s, t, c, n - 1);
    }
}


// ---- Settled boards ----

/// No puyo floats: in every column the cells above the stack are empty, up
/// to the top hidden row (which may hold a puyo left behind).
pub open spec fn settled(cfg: GameConfig, s: Seq<PuyoColor>) -> bool {
    forall|c: int, r: int|
        0 <= c < cfg.cols && column_height(cfg, s, c) <= r < cfg.rows - 1 ==> #[trigger] color_at(
            cfg,
            s,
            c,
            r,
        ) == PuyoColor::Empty
}

/// Gravity leaves a settled board, whatever it starts from.
pub proof fn lemma_gravity_settled(cfg: GameConfig, s: Seq<PuyoColor>)
    requires
        grid_ok(cfg, s),
    ensures
        settled(cfg, gravity(cfg, s)),
{
    let g = gravity(cfg, s);
    lemma_gravity_cells(cfg, s);
    assert forall|c: int, r: int|
        0 <= c < cfg.cols && column_height(cfg, g, c) <= r < cfg.rows - 1 implies #[trigger] color_at(
        cfg,
        g,
        c,
        r,
    ) == PuyoColor::Empty by {
        let kept = col_kept(cfg, s, c, cfg.rows - 1);
        lemma_col_kept_len(cfg, s, c, cfg.rows - 1);
        lemma_column_height(cfg, g, c);
        if r < kept.len() {
            // the cells below `r` are filled, so the height is above `r`
            assert forall|k: int| 0 <= k <= r implies color_at(cfg, g, c, k) != PuyoColor::Empty by {
                assert(color_at(cfg, g, c, k) == gravity_cell(cfg, s, c, k));
                assert(kept[k] != PuyoColor::Empty);
            }
            assert(color_at(cfg, g, c, column_height(cfg, g, c)) == PuyoColor::Empty);
            assert(false);
        }
        assert(color_at(cfg, g, c, r) == gravity_cell(cfg, s, c, r));
    }
}

/// On a settled column, the puyos kept below row `n` are the column's own
/// cells, up to its height.
proof fn lemma_col_kept_settled(cfg: GameConfig, s: Seq<PuyoColor>, c: int, n: int)
    requires
        settled(cfg, s),
        0 <= c < cfg.cols,
        0 <= n <= cfg.rows - 1,
    ensures
        col_kept(cfg, s, c, n).len() == if n < column_height(cfg, s, c) {
            n
        } else {
            column_height(cfg, s, c)
        },
        forall|k: int|
            0 <= k < col_kept(cfg, s, c, n).len() ==> #[trigger] col_kept(cfg, s, c, n)[k]
                == color_at(cfg, s, c, k),
    decreases n,
{
    lemma_column_height(cfg, s, c);
    if n > 0 {
        lemma_col_kept_settled(cfg, s, c, n - 1);
        let prev = col_kept(cfg, s, c, n - 1);
        if color_at(cfg, s, c, n - 1) != PuyoColor::Empty {
            assert(n - 1 < column_height(cfg, s, c));
            assert forall|k: int| 0 <= k < col_kept(cfg, s, c, n).len() implies #[trigger] col_kept(
                cfg,
                s,
                c,
                n,
            )[k] == color_at(cfg, s, c, k) by {
                if k < prev.len() {
                    assert(col_kept(cfg, s, c, n)[k] == prev[k]);
                }
            }
        }
    }
}

/// Gravity changes nothing on a settled board, so applying it twice gives
/// the same board as applying it once.
pub proof fn lemma_gravity_idempotent(cfg: GameConfig, s: Seq<PuyoColor>)
    requires
        grid_ok(cfg, s),
    ensures
        settled(cfg, s) ==> gravity(cfg, s) == s,
        gravity(cfg, gravity(cfg, s)) == gravity(cfg, s),
{
    lemma_gravity_settled_fixed(cfg, s);
    lemma_gravity_cells(cfg, s);
    lemma_gravity_settled(cfg, s);
    lemma_gravity_settled_fixed(cfg, gravity(cfg, s));
}

proof fn lemma_gravity_settled_fixed(cfg: GameConfig, s: Seq<PuyoColor>)
    requires
        cfg.rows >= 3,
        s.len() == cfg.cols * cfg.rows,
    ensures
        settled(cfg, s) ==> gravity(cfg, s) == s,
{
    if settled(cfg, s) {
        lemma_gravity_cells(cfg, s);
        assert forall|c: int, r: int| in_grid(cfg, c, r) implies color_at(cfg, gravity(cfg, s), c, r)
            == color_at(cfg, s, c, r) by {
            if r < cfg.rows - 1 {
                lemma_col_kept_settled(cfg, s, c, cfg.rows - 1);
                lemma_column_height(cfg, s, c);
                let kept = col_kept(cfg, s, c, cfg.rows - 1);
                if r >= kept.len() {
                    assert(column_height(cfg, s, c) <= r);
                }
            }
        }
        lemma_grid_ext(cfg, gravity(cfg, s), s);
    }
}

} // verus!
