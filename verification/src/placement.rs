//! Placing pieces on a board, and the legal placements of a piece.

use vstd::prelude::*;
use crate::board::{Board, ChainResult, PuyoColor};
use crate::chain_model::{
    chain_fits, chain_outcome, colored_count, lemma_chain_settled, lemma_count_clear_one,
};
use crate::config::GameConfig;
use crate::grid::{
    cell_index, color_at, column_height, grid_ok, in_grid, lemma_column_height, lemma_index_bounds,
    lemma_column_height_unique, lemma_update_cell, settled, top_isolated,
};
use crate::piece::{Orientation, Piece, Placement};

verus! {

// ---- Placing a piece ----

/// The board after a puyo of colour `color` drops into column `col`.
pub open spec fn drop_spec(cfg: GameConfig, s: Seq<PuyoColor>, col: int, color: PuyoColor) -> Seq<
    PuyoColor,
> {
    s.update(cell_index(cfg, col, column_height(cfg, s, col)), color)
}

/// The board after placing `piece` at `p`.  North drops the axis first, then
/// the satellite on top unless the column is then full; South drops the
/// satellite first, then the axis; East and West drop the axis, then the
/// satellite in the neighbouring column.
pub open spec fn place_spec(cfg: GameConfig, s: Seq<PuyoColor>, piece: Piece, p: Placement) -> Seq<
    PuyoColor,
> {
    let col = p.col as int;
    match p.orientation {
        Orientation::North => {
            let s1 = drop_spec(cfg, s, col, piece.axis_color);
            let h1 = column_height(cfg, s1, col);
            if h1 < cfg.rows && color_at(cfg, s1, col, h1) == PuyoColor::Empty {
                drop_spec(cfg, s1, col, piece.satellite_color)
            } else {
                s1
            }
        },
        Orientation::South => {
            let s1 = drop_spec(cfg, s, col, piece.satellite_color);
            drop_spec(cfg, s1, col, piece.axis_color)
        },
        _ => {
            let s1 = drop_spec(cfg, s, col, piece.axis_color);
            drop_spec(cfg, s1, p.spec_satellite(), piece.satellite_color)
        },
    }
}

/// Placing `piece` at `p` finds room for each puyo it drops (and the
/// satellite's column is on the board).
pub open spec fn place_ok(cfg: GameConfig, s: Seq<PuyoColor>, piece: Piece, p: Placement) -> bool {
    let col = p.col as int;
    &&& 0 <= col < cfg.cols
    &&& column_height(cfg, s, col) < cfg.rows
    &&& match p.orientation {
        Orientation::North => true,
        Orientation::South => column_height(
            cfg,
            drop_spec(cfg, s, col, piece.satellite_color),
            col,
        ) < cfg.rows,
        _ => {
            &&& 0 <= p.spec_satellite() < cfg.cols
            &&& column_height(cfg, drop_spec(cfg, s, col, piece.axis_color), p.spec_satellite())
                < cfg.rows
        },
    }
}

/// Place a piece directly onto a board.  Each puyo it drops needs room
/// (see `can_place`).
pub fn place_piece_on_board(board: &mut Board, piece: &Piece, placement: &Placement)
    requires
        old(board).wf(),
        place_ok(old(board).config(), old(board)@, *piece, *placement),
    ensures
        final(board).wf(),
        final(board).config() == old(board).config(),
        final(board)@ == place_spec(old(board).config(), old(board)@, *piece, *placement),
{
    match placement.orientation {
        Orientation::North => {
            board.drop_puyo(placement.col, piece.axis_color);
            let sat_col = placement.satellite_index();
            let sat_h = board.column_height(sat_col);
            if sat_h < board.config().rows && !board.get(sat_col, sat_h).is_color() {
                board.drop_puyo(sat_col, piece.satellite_color);
            }
        },
        Orientation::South => {
            let sat_col = placement.satellite_index();
            board.drop_puyo(sat_col, piece.satellite_color);
            board.drop_puyo(placement.col, piece.axis_color);
        },
        Orientation::East | Orientation::West => {
            board.drop_puyo(placement.col, piece.axis_color);
            let sat_col = placement.satellite_index();
            board.drop_puyo(sat_col, piece.satellite_color);
        },
    }
}

/// Whether placing `piece` at `placement` finds room for each puyo it drops
/// (so that `place_piece_on_board` and `simulate_placement` may be called).
pub fn can_place(board: &Board, piece: &Piece, placement: &Placement) -> (b: bool)
    requires
        board.wf(),
    ensures
        b == place_ok(board.config(), board@, *piece, *placement),
{
    let cols = board.config().cols;
    let rows = board.config().rows;
    let col = placement.col;
    if col >= cols {
        return false;
    }
    if board.column_height(col) >= rows {
        return false;
    }
    match placement.orientation {
        Orientation::North => true,
        Orientation::South => {
            let mut b = board.clone();
            b.drop_puyo(col, piece.satellite_color);
            b.column_height(col) < rows
        },
        _ => {
            let sat_col = match placement.satellite_col(cols) {
                Some(c) => c,
                None => {
                    return false;
                },
            };
            let mut b = board.clone();
            b.drop_puyo(col, piece.axis_color);
            b.column_height(sat_col) < rows
        },
    }
}

/// Place a piece on a copy of the board and resolve every chain.  Returns
/// the resulting board and the chain result.
pub fn simulate_placement(board: &Board, piece: &Piece, placement: &Placement) -> (res: (
    Board,
    ChainResult,
))
    requires
        board.wf(),
        place_ok(board.config(), board@, *piece, *placement),
        chain_fits(board.config(), place_spec(board.config(), board@, *piece, *placement)),
    ensures
        res.0.wf(),
        res.0.config() == board.config(),
        res.0@ == chain_outcome(board.config(), place_spec(board.config(), board@, *piece, *placement), 1).2,
        res.1.chain_count == chain_outcome(
            board.config(),
            place_spec(board.config(), board@, *piece, *placement),
            1,
        ).0,
        res.1.score == chain_outcome(
            board.config(),
            place_spec(board.config(), board@, *piece, *placement),
            1,
        ).1,
        settled(board.config(), board@) ==> settled(board.config(), res.0@),
{
    proof {
        if settled(board.config(), board@) {
            lemma_place_settled(board.config(), board@, *piece, *placement);
            lemma_chain_settled(board.config(), place_spec(board.config(), board@, *piece, *placement), 1);
        }
    }
    let mut b = board.clone();
    place_piece_on_board(&mut b, piece, placement);
    let chain_result = b.resolve_chains();
    (b, chain_result)
}

// ---- Legal placements ----

/// A column below `rows - 1` puyos lets a piece pass.
pub open spec fn passable(cfg: GameConfig, s: Seq<PuyoColor>, c: int) -> bool {
    column_height(cfg, s, c) < cfg.rows - 1
}

/// Column `col` can be reached from the spawn column: the spawn column and
/// every column between it and `col` are passable.
pub open spec fn is_reachable(cfg: GameConfig, s: Seq<PuyoColor>, col: int) -> bool {
    let sp = cfg.spec_spawn_col();
    &&& 0 <= col < cfg.cols
    &&& passable(cfg, s, sp)
    &&& col <= sp ==> forall|c: int| col <= c <= sp ==> #[trigger] passable(cfg, s, c)
    &&& col >= sp ==> forall|c: int| sp <= c <= col ==> #[trigger] passable(cfg, s, c)
}

/// The most puyos column `c` can hold: one less when its top hidden row holds
/// an isolated puyo.
pub open spec fn max_rows_for(cfg: GameConfig, s: Seq<PuyoColor>, c: int) -> int {
    if top_isolated(cfg, s, c) {
        cfg.rows - 1
    } else {
        cfg.rows as int
    }
}

/// The legal placements: every column involved is reachable, the axis does
/// not end in the top hidden row, North needs room for both puyos, and South
/// needs a free neighbouring column to turn through.
pub open spec fn legal_placement(cfg: GameConfig, s: Seq<PuyoColor>, p: Placement) -> bool {
    let col = p.col as int;
    let rows = cfg.rows as int;
    let h = column_height(cfg, s, col);
    match p.orientation {
        Orientation::North => is_reachable(cfg, s, col) && h + 2 <= max_rows_for(cfg, s, col),
        Orientation::South => {
            let left_blocked = col == 0 || column_height(cfg, s, col - 1) >= rows - 1;
            let right_blocked = col == cfg.cols - 1 || column_height(cfg, s, col + 1) >= rows - 1;
            is_reachable(cfg, s, col) && h + 2 <= rows - 1 && !(left_blocked && right_blocked)
        },
        Orientation::East => {
            &&& col + 1 < cfg.cols
            &&& is_reachable(cfg, s, col)
            &&& is_reachable(cfg, s, col + 1)
            &&& h < rows - 1
            &&& column_height(cfg, s, col + 1) < max_rows_for(cfg, s, col + 1)
        },
        Orientation::West => {
            &&& col >= 1
            &&& is_reachable(cfg, s, col)
            &&& is_reachable(cfg, s, col - 1)
            &&& h < rows - 1
            &&& column_height(cfg, s, col - 1) < max_rows_for(cfg, s, col - 1)
        },
    }
}

/// The legal placements with orientation `o` and axis column in `lo..n`, by column.
pub open spec fn legal_list(cfg: GameConfig, s: Seq<PuyoColor>, o: Orientation, lo: int, n: int) -> Seq<
    Placement,
>
    decreases n - lo,
{
    if n <= lo {
        Seq::empty()
    } else {
        let p = Placement { col: (n - 1) as usize, orientation: o };
        if legal_placement(cfg, s, p) {
            legal_list(cfg, s, o, lo, n - 1).push(p)
        } else {
            legal_list(cfg, s, o, lo, n - 1)
        }
    }
}

/// All legal placements: North by column, then South, East and West.
pub open spec fn all_legal(cfg: GameConfig, s: Seq<PuyoColor>) -> Seq<Placement> {
    let cols = cfg.cols as int;
    legal_list(cfg, s, Orientation::North, 0, cols) + legal_list(cfg, s, Orientation::South, 0, cols)
        + legal_list(cfg, s, Orientation::East, 0, cols - 1) + legal_list(
        cfg,
        s,
        Orientation::West,
        1,
        cols,
    )
}

/// A placement's shape: `(min_col, max_col, vertical)`.  With both puyos of
/// one colour, placements of the same shape give the same board.
pub open spec fn norm(p: Placement) -> (int, int, bool) {
    let sat = p.spec_satellite();
    if p.orientation == Orientation::North || p.orientation == Orientation::South {
        (p.col as int, p.col as int, true)
    } else if p.col <= sat {
        (p.col as int, sat, false)
    } else {
        (sat, p.col as int, false)
    }
}

/// The placements in order, keeping only the first of each shape.
pub open spec fn dedup_norm(ps: Seq<Placement>) -> Seq<Placement>
    decreases ps.len(),
{
    if ps.len() == 0 {
        Seq::empty()
    } else {
        let d = dedup_norm(ps.drop_last());
        if exists|i: int| 0 <= i < d.len() && norm(#[trigger] d[i]) == norm(ps.last()) {
            d
        } else {
            d.push(ps.last())
        }
    }
}

/// The placements `enumerate_placements` returns.
pub open spec fn enumerate_spec(cfg: GameConfig, s: Seq<PuyoColor>, piece: Piece) -> Seq<Placement> {
    if piece.axis_color == piece.satellite_color {
        dedup_norm(all_legal(cfg, s))
    } else {
        all_legal(cfg, s)
    }
}

/// Which columns can be reached from the spawn column.
fn compute_reachable_columns(board: &Board) -> (reachable: Vec<bool>)
    requires
        board.wf(),
    ensures
        reachable@.len() == board.config().cols,
        forall|c: int|
            0 <= c < board.config().cols ==> reachable@[c] == is_reachable(board.config(), board@, c),
{
    let ghost cfg = board.config();
    let ghost s = board@;
    let cols = board.config().cols;
    let rows = board.config().rows;
    let spawn_col = board.config().spawn_col();
    let mut reachable = vec![false; cols];
    if board.column_height(spawn_col) >= rows - 1 {
        return reachable;
    }
    reachable.set(spawn_col, true);
    let mut c = spawn_col;
    while c > 0 && board.column_height(c - 1) < rows - 1
        invariant
            board.wf(),
            cfg == board.config(),
            s == board@,
            cols == cfg.cols,
            rows == cfg.rows,
            spawn_col == cfg.spec_spawn_col(),
            passable(cfg, s, spawn_col as int),
            c <= spawn_col < cols,
            reachable@.len() == cols,
            forall|k: int| c <= k <= spawn_col ==> #[trigger] passable(cfg, s, k),
            forall|k: int| 0 <= k < cols ==> reachable@[k] == (c <= k <= spawn_col),
        decreases c,
    {
        c -= 1;
        reachable.set(c, true);
    }
    let ghost left = c;
    assert(left == 0 || !passable(cfg, s, left - 1));
    let mut c = spawn_col + 1;
    while c < cols && board.column_height(c) < rows - 1
        invariant
            board.wf(),
            cfg == board.config(),
            s == board@,
            cols == cfg.cols,
            rows == cfg.rows,
            spawn_col == cfg.spec_spawn_col(),
            passable(cfg, s, spawn_col as int),
            spawn_col < c <= cols,
            left <= spawn_col,
            reachable@.len() == cols,
            forall|k: int| left <= k <= spawn_col ==> #[trigger] passable(cfg, s, k),
            left == 0 || !passable(cfg, s, left - 1),
            forall|k: int| spawn_col <= k < c ==> #[trigger] passable(cfg, s, k),
            forall|k: int| 0 <= k < cols ==> reachable@[k] == (left <= k < c),
        decreases cols - c,
    {
        reachable.set(c, true);
        c += 1;
    }
    proof {
        assert forall|k: int| 0 <= k < cols implies reachable@[k] == is_reachable(cfg, s, k) by {
            if k < left {
                assert(!passable(cfg, s, left - 1));
            } else if k >= c {
                assert(!passable(cfg, s, c as int));
            }
        }
    }
    reachable
}

} // verus!

verus! {

/// Members of a list of legal placements.
pub proof fn lemma_legal_list_members(cfg: GameConfig, s: Seq<PuyoColor>, o: Orientation, lo: int, n: int)
    requires
        0 <= lo,
        n <= usize::MAX,
    ensures
        forall|k: int|
            0 <= k < legal_list(cfg, s, o, lo, n).len() ==> {
                let p = #[trigger] legal_list(cfg, s, o, lo, n)[k];
                &&& legal_placement(cfg, s, p)
                &&& p.orientation == o
                &&& lo <= p.col < n
            },
    decreases n - lo,
{
    if n > lo {
        lemma_legal_list_members(cfg, s, o, lo, n - 1);
    }
}

/// Every placement of `all_legal` is legal.
pub proof fn lemma_all_legal_members(cfg: GameConfig, s: Seq<PuyoColor>)
    requires
        cfg.cols >= 1,
    ensures
        forall|k: int|
            0 <= k < all_legal(cfg, s).len() ==> legal_placement(cfg, s, #[trigger] all_legal(cfg, s)[k]),
{
    let cols = cfg.cols as int;
    let a = legal_list(cfg, s, Orientation::North, 0, cols);
    let b = legal_list(cfg, s, Orientation::South, 0, cols);
    let c = legal_list(cfg, s, Orientation::East, 0, cols - 1);
    let d = legal_list(cfg, s, Orientation::West, 1, cols);
    lemma_legal_list_members(cfg, s, Orientation::North, 0, cols);
    lemma_legal_list_members(cfg, s, Orientation::South, 0, cols);
    lemma_legal_list_members(cfg, s, Orientation::East, 0, cols - 1);
    lemma_legal_list_members(cfg, s, Orientation::West, 1, cols);
    assert forall|k: int| 0 <= k < all_legal(cfg, s).len() implies legal_placement(
        cfg,
        s,
        #[trigger] all_legal(cfg, s)[k],
    ) by {
        let all = all_legal(cfg, s);
        if k < a.len() {
            assert(all[k] == a[k]);
        } else if k < a.len() + b.len() {
            assert(all[k] == b[k - a.len()]);
        } else if k < a.len() + b.len() + c.len() {
            assert(all[k] == c[k - a.len() - b.len()]);
        } else {
            assert(all[k] == d[k - a.len() - b.len() - c.len()]);
        }
    }
}

/// Removing repeated shapes keeps placements of the list, in order.
pub proof fn lemma_dedup_members(ps: Seq<Placement>)
    ensures
        forall|k: int|
            0 <= k < dedup_norm(ps).len() ==> exists|m: int|
                0 <= m < ps.len() && #[trigger] dedup_norm(ps)[k] == ps[m],
        dedup_norm(ps).len() <= ps.len(),
    decreases ps.len(),
{
    if ps.len() > 0 {
        lemma_dedup_members(ps.drop_last());
        let d = dedup_norm(ps.drop_last());
        assert forall|k: int| 0 <= k < dedup_norm(ps).len() implies exists|m: int|
            0 <= m < ps.len() && #[trigger] dedup_norm(ps)[k] == ps[m] by {
            if k < d.len() {
                assert(dedup_norm(ps)[k] == d[k]);
                let m = choose|m: int| 0 <= m < ps.drop_last().len() && d[k] == ps.drop_last()[m];
                assert(ps[m] == ps.drop_last()[m]);
            } else {
                assert(dedup_norm(ps)[k] == ps[ps.len() - 1]);
            }
        }
    }
}

/// Every placement `enumerate_placements` returns is legal.
pub proof fn lemma_enumerate_legal(cfg: GameConfig, s: Seq<PuyoColor>, piece: Piece)
    requires
        cfg.cols >= 1,
    ensures
        forall|k: int|
            0 <= k < enumerate_spec(cfg, s, piece).len() ==> legal_placement(
                cfg,
                s,
                #[trigger] enumerate_spec(cfg, s, piece)[k],
            ),
{
    lemma_all_legal_members(cfg, s);
    lemma_dedup_members(all_legal(cfg, s));
    assert forall|k: int| 0 <= k < enumerate_spec(cfg, s, piece).len() implies legal_placement(
        cfg,
        s,
        #[trigger] enumerate_spec(cfg, s, piece)[k],
    ) by {
        if piece.axis_color == piece.satellite_color {
            let m = choose|m: int|
                0 <= m < all_legal(cfg, s).len() && dedup_norm(all_legal(cfg, s))[k] == all_legal(
                    cfg,
                    s,
                )[m];
            assert(legal_placement(cfg, s, all_legal(cfg, s)[m]));
        }
    }
}

/// A legal placement lies on the board, and so does its satellite.
pub proof fn lemma_legal_on_board(cfg: GameConfig, s: Seq<PuyoColor>, p: Placement)
    requires
        legal_placement(cfg, s, p),
    ensures
        p.col < cfg.cols,
        0 <= p.spec_satellite() < cfg.cols,
{
}

/// Whether placing `(col, o)` is legal, given the reachable columns.
fn is_legal(board: &Board, reachable: &Vec<bool>, col: usize, o: Orientation) -> (b: bool)
    requires
        board.wf(),
        reachable@.len() == board.config().cols,
        forall|c: int|
            0 <= c < board.config().cols ==> reachable@[c] == is_reachable(board.config(), board@, c),
        col < board.config().cols,
    ensures
        b == legal_placement(board.config(), board@, Placement { col, orientation: o }),
{
    let cols = board.config().cols;
    let rows = board.config().rows;
    proof {
        board.lemma_dims();
        crate::grid::lemma_column_height(board.config(), board@, col as int);
        if col > 0 {
            crate::grid::lemma_column_height(board.config(), board@, col - 1);
        }
        if col + 1 < cols {
            crate::grid::lemma_column_height(board.config(), board@, col + 1);
        }
    }
    match o {
        Orientation::North => {
            let (h, isolated) = board.column_info(col);
            let max_rows = if isolated {
                rows - 1
            } else {
                rows
            };
            reachable[col] && h <= max_rows - 2
        },
        Orientation::South => {
            if !reachable[col] || board.column_height(col) > rows - 3 {
                return false;
            }
            let left_blocked = col == 0 || board.column_height(col - 1) >= rows - 1;
            let right_blocked = col == cols - 1 || board.column_height(col + 1) >= rows - 1;
            !(left_blocked && right_blocked)
        },
        Orientation::East => {
            if col + 1 >= cols {
                return false;
            }
            let (sat_h, sat_isolated) = board.column_info(col + 1);
            let sat_max = if sat_isolated {
                rows - 1
            } else {
                rows
            };
            reachable[col] && reachable[col + 1] && board.column_height(col) < rows - 1 && sat_h
                < sat_max
        },
        Orientation::West => {
            if col == 0 {
                return false;
            }
            let (sat_h, sat_isolated) = board.column_info(col - 1);
            let sat_max = if sat_isolated {
                rows - 1
            } else {
                rows
            };
            reachable[col] && reachable[col - 1] && board.column_height(col) < rows - 1 && sat_h
                < sat_max
        },
    }
}

/// Append the legal placements with orientation `o` and axis column in `lo..hi`.
fn append_legal(
    board: &Board,
    reachable: &Vec<bool>,
    o: Orientation,
    lo: usize,
    hi: usize,
    v: &mut Vec<Placement>,
)
    requires
        board.wf(),
        reachable@.len() == board.config().cols,
        forall|c: int|
            0 <= c < board.config().cols ==> reachable@[c] == is_reachable(board.config(), board@, c),
        lo <= hi <= board.config().cols,
    ensures
        final(v)@ == old(v)@ + legal_list(board.config(), board@, o, lo as int, hi as int),
{
    let ghost v0 = v@;
    let mut col = lo;
    while col < hi
        invariant
            board.wf(),
            reachable@.len() == board.config().cols,
            forall|c: int|
                0 <= c < board.config().cols ==> reachable@[c] == is_reachable(board.config(), board@, c),
            lo <= col <= hi <= board.config().cols,
            v@ == v0 + legal_list(board.config(), board@, o, lo as int, col as int),
        decreases hi - col,
    {
        let ghost before = v@;
        if is_legal(board, reachable, col, o) {
            v.push(Placement::new(col, o));
        }
        assert(v@ =~= v0 + legal_list(board.config(), board@, o, lo as int, col + 1));
        col += 1;
    }
}

/// Enumerate the legal placements of a piece: North placements by column,
/// then South, East and West.  When both puyos have the same colour, only the
/// first placement of each shape is kept (North equals South, and East at a
/// column equals West at the next).
///
/// Rules: the axis puyo must not land in the top hidden row; every column
/// involved must be reachable from the spawn column, a column of `rows - 1`
/// or more puyos blocking the way; South needs a neighbouring column free to
/// turn through.
pub fn enumerate_placements(board: &Board, piece: &Piece) -> (res: Vec<Placement>)
    requires
        board.wf(),
    ensures
        res@ == enumerate_spec(board.config(), board@, *piece),
{
    let cols = board.config().cols;
    let reachable = compute_reachable_columns(board);
    let mut placements: Vec<Placement> = Vec::new();
    append_legal(board, &reachable, Orientation::North, 0, cols, &mut placements);
    append_legal(board, &reachable, Orientation::South, 0, cols, &mut placements);
    append_legal(board, &reachable, Orientation::East, 0, cols - 1, &mut placements);
    append_legal(board, &reachable, Orientation::West, 1, cols, &mut placements);
    assert(placements@ =~= all_legal(board.config(), board@));
    if piece.axis_color == piece.satellite_color {
        proof {
            lemma_all_legal_members(board.config(), board@);
            board.lemma_dims();
        }
        let mut seen: Vec<(usize, usize, bool)> = Vec::new();
        let mut out: Vec<Placement> = Vec::new();
        let mut i: usize = 0;
        while i < placements.len()
            invariant
                board.wf(),
                placements@ == all_legal(board.config(), board@),
                forall|k: int|
                    0 <= k < placements@.len() ==> legal_placement(
                        board.config(),
                        board@,
                        #[trigger] placements@[k],
                    ),
                i <= placements.len(),
                out@ == dedup_norm(placements@.take(i as int)),
                seen@.len() == out@.len(),
                forall|j: int|
                    0 <= j < seen@.len() ==> (seen@[j].0 as int, seen@[j].1 as int, seen@[j].2)
                        == norm(#[trigger] out@[j]),
            decreases placements.len() - i,
        {
            let p = placements[i];
            assert(legal_placement(board.config(), board@, placements@[i as int]));
            let key = normalize_placement(&p);
            let mut found = false;
            let mut j: usize = 0;
            while j < seen.len()
                invariant
                    j <= seen@.len(),
                    found == exists|t: int| 0 <= t < j && #[trigger] seen@[t] == key,
                decreases seen.len() - j,
            {
                let entry = seen[j];
                if entry.0 == key.0 && entry.1 == key.1 && entry.2 == key.2 {
                    found = true;
                }
                j += 1;
            }
            proof {
                let pre = placements@.take(i as int);
                let pre1 = placements@.take(i + 1);
                assert(pre1.drop_last() =~= pre);
                assert(pre1.last() == p);
                if found {
                    let t = choose|t: int| 0 <= t < seen@.len() && seen@[t] == key;
                    assert(norm(out@[t]) == norm(p));
                } else {
                    assert forall|t: int| 0 <= t < out@.len() implies norm(#[trigger] out@[t]) != norm(
                        p,
                    ) by {
                        assert(seen@[t] != key);
                    }
                }
            }
            if !found {
                seen.push(key);
                out.push(p);
            }
            i += 1;
        }
        assert(placements@.take(i as int) =~= placements@);
        return out;
    }
    placements
}

/// Column-major action index of a placement: `col * 4 + orientation`.
pub open spec fn spec_placement_index(p: Placement) -> int {
    p.col * 4 + p.orientation.spec_as_u8()
}

/// Convert a placement to its action index, `col * 4 + orientation.as_u8()`.
pub fn placement_to_index(p: &Placement) -> (i: usize)
    requires
        p.col * 4 + 3 <= usize::MAX,
    ensures
        i == spec_placement_index(*p),
{
    p.col * 4 + p.orientation.as_u8() as usize
}

/// The placement of an action index: column `index / 4`, orientation `index % 4`.
pub open spec fn spec_index_to_placement(index: int) -> Placement {
    Placement {
        col: (index / 4) as usize,
        orientation: if index % 4 == 0 {
            Orientation::North
        } else if index % 4 == 1 {
            Orientation::East
        } else if index % 4 == 2 {
            Orientation::South
        } else {
            Orientation::West
        },
    }
}

/// Convert an action index back to a placement.  The index must be below
/// `cols * 4`.
pub fn index_to_placement(index: usize, cols: usize) -> (p: Placement)
    requires
        cols * 4 <= usize::MAX,
        index < cols * 4,
    ensures
        p == spec_index_to_placement(index as int),
        p.col < cols,
{
    let num_actions = cols * 4;
    let col = index / 4;
    let ori = match index % 4 {
        0 => Orientation::North,
        1 => Orientation::East,
        2 => Orientation::South,
        _ => Orientation::West,
    };
    Placement::new(col, ori)
}

/// Index and placement convert into each other.
pub proof fn lemma_index_roundtrip(p: Placement, i: int)
    ensures
        spec_index_to_placement(spec_placement_index(p)) == p,
        0 <= i <= usize::MAX ==> spec_placement_index(spec_index_to_placement(i)) == i,
{
    let o = p.orientation;
    assert(spec_placement_index(p) / 4 == p.col && spec_placement_index(p) % 4 == o.spec_as_u8() as int);
    if 0 <= i <= usize::MAX {
        let q = spec_index_to_placement(i);
        assert(i == (i / 4) * 4 + i % 4);
    }
}

/// The valid-action mask: entry `i` is true when some placement returned by
/// `enumerate_placements` has action index `i`.
pub fn compute_valid_mask(board: &Board, piece: &Piece) -> (mask: Vec<bool>)
    requires
        board.wf(),
        board.config().cols * 4 <= usize::MAX,
    ensures
        mask@.len() == board.config().spec_num_actions(),
        forall|i: int|
            0 <= i < mask@.len() ==> mask@[i] == exists|k: int|
                0 <= k < enumerate_spec(board.config(), board@, *piece).len()
                    && spec_placement_index(
                    #[trigger] enumerate_spec(board.config(), board@, *piece)[k],
                ) == i,
{
    proof {
        board.lemma_dims();
        lemma_enumerate_legal(board.config(), board@, *piece);
    }
    let num_actions = board.config().num_actions();
    let mut mask = vec![false; num_actions];
    let placements = enumerate_placements(board, piece);
    let ghost e = placements@;
    let mut k: usize = 0;
    while k < placements.len()
        invariant
            board.wf(),
            board.config().cols * 4 <= usize::MAX,
            e == placements@,
            e == enumerate_spec(board.config(), board@, *piece),
            forall|t: int| 0 <= t < e.len() ==> legal_placement(board.config(), board@, #[trigger] e[t]),
            mask@.len() == num_actions,
            num_actions == board.config().cols * 4,
            k <= e.len(),
            forall|i: int|
                0 <= i < mask@.len() ==> mask@[i] == exists|t: int|
                    0 <= t < k && spec_placement_index(#[trigger] e[t]) == i,
        decreases placements.len() - k,
    {
        let p = placements[k];
        assert(legal_placement(board.config(), board@, e[k as int]));
        let idx = placement_to_index(&p);
        mask.set(idx, true);
        proof {
            assert forall|i: int| 0 <= i < mask@.len() implies mask@[i] == exists|t: int|
                0 <= t < k + 1 && spec_placement_index(#[trigger] e[t]) == i by {
                if i == idx {
                    assert(spec_placement_index(e[k as int]) == i);
                }
            }
        }
        k += 1;
    }
    mask
}

/// A placement's shape: `(min_col, max_col, vertical)`.
fn normalize_placement(p: &Placement) -> (r: (usize, usize, bool))
    requires
        0 <= p.spec_satellite() <= usize::MAX,
    ensures
        (r.0 as int, r.1 as int, r.2) == norm(*p),
{
    let sat_col = p.satellite_index();
    let is_vertical = match p.orientation {
        Orientation::North | Orientation::South => true,
        _ => false,
    };
    if is_vertical {
        (p.col, p.col, true)
    } else {
        let min_c = if p.col < sat_col {
            p.col
        } else {
            sat_col
        };
        let max_c = if p.col < sat_col {
            sat_col
        } else {
            p.col
        };
        (min_c, max_c, false)
    }
}


// ---- Settled boards ----

/// Dropping a puyo into a column with room: the board keeps its shape, the
/// other columns keep their heights, a settled board stays settled, and on a
/// settled board the column grows by at most one below the top hidden row.
pub proof fn lemma_drop_facts(cfg: GameConfig, s: Seq<PuyoColor>, col: int, color: PuyoColor)
    requires
        grid_ok(cfg, s),
        0 <= col < cfg.cols,
        column_height(cfg, s, col) < cfg.rows,
    ensures
        grid_ok(cfg, drop_spec(cfg, s, col, color)),
        forall|c: int|
            0 <= c < cfg.cols && c != col ==> #[trigger] column_height(
                cfg,
                drop_spec(cfg, s, col, color),
                c,
            ) == column_height(cfg, s, c),
        settled(cfg, s) ==> settled(cfg, drop_spec(cfg, s, col, color)),
        settled(cfg, s) && column_height(cfg, s, col) + 1 < cfg.rows - 1 ==> column_height(
            cfg,
            drop_spec(cfg, s, col, color),
            col,
        ) <= column_height(cfg, s, col) + 1,
{
    let h = column_height(cfg, s, col);
    let t = drop_spec(cfg, s, col, color);
    lemma_column_height(cfg, s, col);
    lemma_index_bounds(cfg, col, h);
    lemma_update_cell(cfg, s, col, h, color);
    lemma_column_height(cfg, t, col);
    assert forall|c: int| 0 <= c < cfg.cols && c != col implies #[trigger] column_height(cfg, t, c)
        == column_height(cfg, s, c) by {
        lemma_column_height(cfg, s, c);
        let hc = column_height(cfg, s, c);
        assert forall|k: int| 0 <= k < hc implies color_at(cfg, t, c, k) != PuyoColor::Empty by {
            assert(in_grid(cfg, c, k));
        }
        if hc < cfg.rows {
            assert(in_grid(cfg, c, hc));
        }
        lemma_column_height_unique(cfg, t, c, hc);
    }
    if color == PuyoColor::Empty {
        assert(s[cell_index(cfg, col, h)] == PuyoColor::Empty);
        assert(t =~= s);
    } else {
        let h2 = column_height(cfg, t, col);
        if h2 <= h {
            assert(in_grid(cfg, col, h2));
            if h2 < h {
                assert(color_at(cfg, s, col, h2) != PuyoColor::Empty);
            }
            assert(color_at(cfg, t, col, h2) != PuyoColor::Empty);
            assert(false);
        }
        if settled(cfg, s) {
            assert forall|c: int, r: int|
                0 <= c < cfg.cols && column_height(cfg, t, c) <= r < cfg.rows - 1 implies #[trigger] color_at(
                cfg,
                t,
                c,
                r,
            ) == PuyoColor::Empty by {
                assert(in_grid(cfg, c, r));
                if c != col {
                    assert(column_height(cfg, t, c) == column_height(cfg, s, c));
                    assert(color_at(cfg, s, c, r) == PuyoColor::Empty);
                } else {
                    assert(color_at(cfg, s, c, r) == PuyoColor::Empty);
                }
            }
            if h + 1 < cfg.rows - 1 {
                assert(in_grid(cfg, col, h + 1));
                assert(color_at(cfg, s, col, h + 1) == PuyoColor::Empty);
                assert(color_at(cfg, t, col, h + 1) == PuyoColor::Empty);
            }
        }
    }
}

/// Placing a piece on a settled board leaves a settled board.
pub proof fn lemma_place_settled(cfg: GameConfig, s: Seq<PuyoColor>, piece: Piece, p: Placement)
    requires
        grid_ok(cfg, s),
        settled(cfg, s),
        place_ok(cfg, s, piece, p),
    ensures
        grid_ok(cfg, place_spec(cfg, s, piece, p)),
        settled(cfg, place_spec(cfg, s, piece, p)),
{
    let col = p.col as int;
    match p.orientation {
        Orientation::North => {
            lemma_drop_facts(cfg, s, col, piece.axis_color);
            let s1 = drop_spec(cfg, s, col, piece.axis_color);
            let h1 = column_height(cfg, s1, col);
            if h1 < cfg.rows && color_at(cfg, s1, col, h1) == PuyoColor::Empty {
                lemma_drop_facts(cfg, s1, col, piece.satellite_color);
            }
        },
        Orientation::South => {
            lemma_drop_facts(cfg, s, col, piece.satellite_color);
            let s1 = drop_spec(cfg, s, col, piece.satellite_color);
            lemma_drop_facts(cfg, s1, col, piece.axis_color);
        },
        _ => {
            lemma_drop_facts(cfg, s, col, piece.axis_color);
            let s1 = drop_spec(cfg, s, col, piece.axis_color);
            lemma_drop_facts(cfg, s1, p.spec_satellite(), piece.satellite_color);
        },
    }
}

/// On a settled board every legal placement can be carried out, whatever
/// the piece: each puyo it drops finds room.
pub proof fn lemma_legal_placeable(cfg: GameConfig, s: Seq<PuyoColor>, piece: Piece, p: Placement)
    requires
        grid_ok(cfg, s),
        settled(cfg, s),
        legal_placement(cfg, s, p),
    ensures
        place_ok(cfg, s, piece, p),
{
    lemma_legal_on_board(cfg, s, p);
    let col = p.col as int;
    match p.orientation {
        Orientation::South => {
            lemma_drop_facts(cfg, s, col, piece.satellite_color);
        },
        Orientation::East | Orientation::West => {
            lemma_drop_facts(cfg, s, col, piece.axis_color);
            assert(column_height(cfg, drop_spec(cfg, s, col, piece.axis_color), p.spec_satellite())
                == column_height(cfg, s, p.spec_satellite()));
        },
        _ => {},
    }
}

/// On a settled board every placement that `enumerate_placements` lists can
/// be simulated (no puyo lacks room), and the board it leaves after the
/// chains is settled again, ready for the next piece.
pub proof fn lemma_listed_placements_apply(cfg: GameConfig, s: Seq<PuyoColor>, piece: Piece)
    requires
        grid_ok(cfg, s),
        settled(cfg, s),
    ensures
        forall|k: int|
            0 <= k < enumerate_spec(cfg, s, piece).len() ==> {
                let p = #[trigger] enumerate_spec(cfg, s, piece)[k];
                &&& place_ok(cfg, s, piece, p)
                &&& settled(cfg, chain_outcome(cfg, place_spec(cfg, s, piece, p), 1).2)
            },
{
    lemma_enumerate_legal(cfg, s, piece);
    assert forall|k: int| 0 <= k < enumerate_spec(cfg, s, piece).len() implies {
        let p = #[trigger] enumerate_spec(cfg, s, piece)[k];
        &&& place_ok(cfg, s, piece, p)
        &&& settled(cfg, chain_outcome(cfg, place_spec(cfg, s, piece, p), 1).2)
    } by {
        let p = enumerate_spec(cfg, s, piece)[k];
        lemma_legal_placeable(cfg, s, piece, p);
        lemma_place_settled(cfg, s, piece, p);
        lemma_chain_settled(cfg, place_spec(cfg, s, piece, p), 1);
    }
}

/// Placing a piece that finds room keeps the board's size.
pub proof fn lemma_place_len(cfg: GameConfig, s: Seq<PuyoColor>, piece: Piece, p: Placement)
    requires
        grid_ok(cfg, s),
        place_ok(cfg, s, piece, p),
    ensures
        grid_ok(cfg, place_spec(cfg, s, piece, p)),
        place_spec(cfg, s, piece, p).len() == s.len(),
{
    let col = p.col as int;
    match p.orientation {
        Orientation::North => {
            lemma_drop_facts(cfg, s, col, piece.axis_color);
            let s1 = drop_spec(cfg, s, col, piece.axis_color);
            if column_height(cfg, s1, col) < cfg.rows {
                lemma_drop_facts(cfg, s1, col, piece.satellite_color);
            }
        },
        Orientation::South => {
            lemma_drop_facts(cfg, s, col, piece.satellite_color);
            let s1 = drop_spec(cfg, s, col, piece.satellite_color);
            lemma_drop_facts(cfg, s1, col, piece.axis_color);
        },
        _ => {
            lemma_drop_facts(cfg, s, col, piece.axis_color);
            let s1 = drop_spec(cfg, s, col, piece.axis_color);
            lemma_drop_facts(cfg, s1, p.spec_satellite(), piece.satellite_color);
        },
    }
}

/// The row where the axis of a placement lands: on top of its column, or for
/// South on top of the satellite.
pub open spec fn axis_row(cfg: GameConfig, s: Seq<PuyoColor>, p: Placement) -> int {
    let h = column_height(cfg, s, p.col as int);
    match p.orientation {
        Orientation::South => h + 1,
        _ => h,
    }
}

/// Dropping a puyo fills an empty cell: every puyo already on the board keeps
/// its cell, and the board holds one puyo more.
proof fn lemma_drop_adds_one(cfg: GameConfig, s: Seq<PuyoColor>, col: int, color: PuyoColor)
    requires
        grid_ok(cfg, s),
        0 <= col < cfg.cols,
        column_height(cfg, s, col) < cfg.rows,
        color != PuyoColor::Empty,
    ensures
        drop_spec(cfg, s, col, color).len() == s.len(),
        forall|i: int|
            0 <= i < s.len() && s[i] != PuyoColor::Empty ==> #[trigger] drop_spec(cfg, s, col, color)[i]
                == s[i],
        colored_count(drop_spec(cfg, s, col, color)) == colored_count(s) + 1,
        color_at(cfg, drop_spec(cfg, s, col, color), col, column_height(cfg, s, col)) == color,
{
    let h = column_height(cfg, s, col);
    lemma_column_height(cfg, s, col);
    lemma_index_bounds(cfg, col, h);
    let i = cell_index(cfg, col, h);
    let t = s.update(i, color);
    assert(s[i] == PuyoColor::Empty);
    lemma_count_clear_one(t, i);
    assert(t.update(i, PuyoColor::Empty) =~= s);
}

/// A legal placement on a settled board adds exactly the piece and nothing
/// else: every puyo already on the board keeps its cell, the board holds two
/// puyos more, and the axis lands in its column below the top hidden row.
pub proof fn lemma_place_adds_piece(cfg: GameConfig, s: Seq<PuyoColor>, piece: Piece, p: Placement)
    requires
        grid_ok(cfg, s),
        settled(cfg, s),
        legal_placement(cfg, s, p),
        piece.axis_color != PuyoColor::Empty,
        piece.satellite_color != PuyoColor::Empty,
    ensures
        forall|i: int|
            0 <= i < s.len() && s[i] != PuyoColor::Empty ==> #[trigger] place_spec(cfg, s, piece, p)[i]
                == s[i],
        colored_count(place_spec(cfg, s, piece, p)) == colored_count(s) + 2,
        axis_row(cfg, s, p) < cfg.rows - 1,
        color_at(cfg, place_spec(cfg, s, piece, p), p.col as int, axis_row(cfg, s, p)) == piece.axis_color,
{
    lemma_legal_on_board(cfg, s, p);
    let col = p.col as int;
    let h = column_height(cfg, s, col);
    lemma_column_height(cfg, s, col);
    match p.orientation {
        Orientation::North => {
            let s1 = drop_spec(cfg, s, col, piece.axis_color);
            lemma_drop_adds_one(cfg, s, col, piece.axis_color);
            lemma_index_bounds(cfg, col, h);
            lemma_update_cell(cfg, s, col, h, piece.axis_color);
            assert(h + 1 < cfg.rows);
            if h + 1 == cfg.rows - 1 {
                assert(!top_isolated(cfg, s, col));
            }
            assert(color_at(cfg, s1, col, h + 1) == color_at(cfg, s, col, h + 1));
            assert(color_at(cfg, s, col, h + 1) == PuyoColor::Empty);
            assert forall|k: int| 0 <= k < h + 1 implies color_at(cfg, s1, col, k) != PuyoColor::Empty by {
                if k < h {
                    assert(color_at(cfg, s1, col, k) == color_at(cfg, s, col, k));
                }
            }
            lemma_column_height_unique(cfg, s1, col, h + 1);
            let s2 = drop_spec(cfg, s1, col, piece.satellite_color);
            lemma_drop_adds_one(cfg, s1, col, piece.satellite_color);
            lemma_update_cell(cfg, s1, col, h + 1, piece.satellite_color);
            assert(place_spec(cfg, s, piece, p) == s2);
            assert forall|i: int| 0 <= i < s.len() && s[i] != PuyoColor::Empty implies #[trigger] s2[i]
                == s[i] by {
                assert(s1[i] == s[i]);
            }
        },
        Orientation::South => {
            let s1 = drop_spec(cfg, s, col, piece.satellite_color);
            lemma_drop_adds_one(cfg, s, col, piece.satellite_color);
            lemma_index_bounds(cfg, col, h);
            lemma_update_cell(cfg, s, col, h, piece.satellite_color);
            assert(color_at(cfg, s1, col, h + 1) == color_at(cfg, s, col, h + 1));
            assert(color_at(cfg, s, col, h + 1) == PuyoColor::Empty);
            assert forall|k: int| 0 <= k < h + 1 implies color_at(cfg, s1, col, k) != PuyoColor::Empty by {
                if k < h {
                    assert(color_at(cfg, s1, col, k) == color_at(cfg, s, col, k));
                }
            }
            lemma_column_height_unique(cfg, s1, col, h + 1);
            let s2 = drop_spec(cfg, s1, col, piece.axis_color);
            lemma_drop_adds_one(cfg, s1, col, piece.axis_color);
            assert forall|i: int| 0 <= i < s.len() && s[i] != PuyoColor::Empty implies #[trigger] s2[i]
                == s[i] by {
                assert(s1[i] == s[i]);
            }
        },
        _ => {
            let sc = p.spec_satellite();
            let s1 = drop_spec(cfg, s, col, piece.axis_color);
            lemma_drop_adds_one(cfg, s, col, piece.axis_color);
            lemma_drop_facts(cfg, s, col, piece.axis_color);
            assert(column_height(cfg, s1, sc) == column_height(cfg, s, sc));
            let hs = column_height(cfg, s, sc);
            lemma_column_height(cfg, s, sc);
            assert(hs < cfg.rows);
            let s2 = drop_spec(cfg, s1, sc, piece.satellite_color);
            lemma_drop_adds_one(cfg, s1, sc, piece.satellite_color);
            lemma_index_bounds(cfg, sc, hs);
            lemma_update_cell(cfg, s1, sc, hs, piece.satellite_color);
            assert(color_at(cfg, s2, col, h) == color_at(cfg, s1, col, h));
            assert forall|i: int| 0 <= i < s.len() && s[i] != PuyoColor::Empty implies #[trigger] s2[i]
                == s[i] by {
                assert(s1[i] == s[i]);
            }
        },
    }
}

/// A column whose way from the spawn column is clear is reached: when the
/// spawn column, column `c` and every column between them are passable, and
/// column `c` has room for two more puyos below the top hidden row, some
/// listed placement has its axis in column `c`.
pub proof fn lemma_clear_way_reaches_column(cfg: GameConfig, s: Seq<PuyoColor>, piece: Piece, c: int)
    requires
        cfg.cols >= 1,
        0 <= c < cfg.cols,
        forall|k: int|
            (c <= k <= cfg.spec_spawn_col() || cfg.spec_spawn_col() <= k <= c) ==> column_height(cfg, s, k)
                < cfg.rows - 1,
        column_height(cfg, s, c) + 2 <= cfg.rows - 1,
    ensures
        exists|k: int|
            0 <= k < enumerate_spec(cfg, s, piece).len() && (#[trigger] enumerate_spec(cfg, s, piece)[k]).col
                == c,
{
    let sp = cfg.spec_spawn_col();
    assert(passable(cfg, s, sp));
    assert(c <= sp ==> forall|k: int| c <= k <= sp ==> #[trigger] passable(cfg, s, k));
    assert(c >= sp ==> forall|k: int| sp <= k <= c ==> #[trigger] passable(cfg, s, k));
    let p = Placement { col: c as usize, orientation: Orientation::North };
    assert(is_reachable(cfg, s, c));
    assert(legal_placement(cfg, s, p));
    let cols = cfg.cols as int;
    lemma_legal_list_complete(cfg, s, Orientation::North, 0, cols, p);
    let a = legal_list(cfg, s, Orientation::North, 0, cols);
    let j = choose|j: int| 0 <= j < a.len() && a[j] == p;
    let all = all_legal(cfg, s);
    assert(all[j] == p);
    if piece.axis_color == piece.satellite_color {
        lemma_dedup_covers(all);
        let i = choose|i: int| 0 <= i < dedup_norm(all).len() && norm(dedup_norm(all)[i]) == norm(#[trigger] all[j]);
        let q = dedup_norm(all)[i];
        assert(q.col == c);
        assert(enumerate_spec(cfg, s, piece)[i] == q);
    } else {
        assert(enumerate_spec(cfg, s, piece)[j] == p);
    }
}

/// Reaching a column goes through every column in between: when a column
/// strictly between the spawn column and column `c` is blocked (its stack
/// holds at least `rows - 1` puyos), no listed placement puts a puyo in
/// column `c`, as axis or as satellite.
pub proof fn lemma_blocked_column_cuts_off(cfg: GameConfig, s: Seq<PuyoColor>, piece: Piece, b: int, c: int)
    requires
        cfg.cols >= 1,
        cfg.spec_spawn_col() < b < c || c < b < cfg.spec_spawn_col(),
        column_height(cfg, s, b) >= cfg.rows - 1,
    ensures
        forall|k: int|
            0 <= k < enumerate_spec(cfg, s, piece).len() ==> (#[trigger] enumerate_spec(cfg, s, piece)[k]).col
                != c && enumerate_spec(cfg, s, piece)[k].spec_satellite() != c,
{
    lemma_enumerate_legal(cfg, s, piece);
    assert(!passable(cfg, s, b));
    assert(!is_reachable(cfg, s, c));
    assert forall|k: int| 0 <= k < enumerate_spec(cfg, s, piece).len() implies (
    #[trigger] enumerate_spec(cfg, s, piece)[k]).col != c && enumerate_spec(cfg, s, piece)[k].spec_satellite()
        != c by {
        let p = enumerate_spec(cfg, s, piece)[k];
        assert(legal_placement(cfg, s, p));
        assert(is_reachable(cfg, s, p.col as int));
        assert(is_reachable(cfg, s, p.spec_satellite()));
    }
}

/// A blocked spawn column leaves no legal placement at all.
pub proof fn lemma_blocked_spawn_no_placement(cfg: GameConfig, s: Seq<PuyoColor>, piece: Piece)
    requires
        cfg.cols >= 1,
        column_height(cfg, s, cfg.spec_spawn_col()) >= cfg.rows - 1,
    ensures
        enumerate_spec(cfg, s, piece).len() == 0,
{
    lemma_enumerate_legal(cfg, s, piece);
    if enumerate_spec(cfg, s, piece).len() > 0 {
        let p = enumerate_spec(cfg, s, piece)[0];
        assert(legal_placement(cfg, s, p));
        assert(is_reachable(cfg, s, p.col as int));
    }
}

/// Dropping a coloured puyo on a column with room: the column's new height
/// is one more when the cell above the drop is empty, and the whole column
/// when every cell above the drop holds a puyo.
proof fn lemma_drop_on_top(cfg: GameConfig, s: Seq<PuyoColor>, col: int, color: PuyoColor)
    requires
        grid_ok(cfg, s),
        0 <= col < cfg.cols,
        column_height(cfg, s, col) < cfg.rows,
        color != PuyoColor::Empty,
    ensures
        ({
            let h = column_height(cfg, s, col);
            let s1 = drop_spec(cfg, s, col, color);
            &&& h + 1 < cfg.rows && color_at(cfg, s, col, h + 1) == PuyoColor::Empty ==> column_height(
                cfg,
                s1,
                col,
            ) == h + 1
            &&& (forall|k: int| h < k < cfg.rows ==> color_at(cfg, s, col, k) != PuyoColor::Empty)
                ==> column_height(cfg, s1, col) == cfg.rows
        }),
{
    let h = column_height(cfg, s, col);
    let s1 = drop_spec(cfg, s, col, color);
    lemma_column_height(cfg, s, col);
    lemma_index_bounds(cfg, col, h);
    lemma_update_cell(cfg, s, col, h, color);
    assert forall|k: int| 0 <= k <= h implies color_at(cfg, s1, col, k) != PuyoColor::Empty by {
        assert(in_grid(cfg, col, k));
    }
    if h + 1 < cfg.rows && color_at(cfg, s, col, h + 1) == PuyoColor::Empty {
        assert(in_grid(cfg, col, h + 1));
        lemma_column_height_unique(cfg, s1, col, h + 1);
    }
    if forall|k: int| h < k < cfg.rows ==> color_at(cfg, s, col, k) != PuyoColor::Empty {
        assert forall|k: int| 0 <= k < cfg.rows implies color_at(cfg, s1, col, k) != PuyoColor::Empty by {
            assert(in_grid(cfg, col, k));
        }
        lemma_column_height_unique(cfg, s1, col, cfg.rows as int);
    }
}

/// Placing a piece on a settled board puts exactly its two puyos on the
/// board, each on top of its column's stack: sideways, the axis colour at the
/// axis column's height and the satellite colour at the satellite column's
/// height; South, the satellite at the height and the axis just above; North,
/// the axis at the height and the satellite just above (unless that cell is
/// off the board or holds the puyo of a full column).  Every other cell is
/// unchanged.
pub proof fn lemma_place_puts_piece(cfg: GameConfig, s: Seq<PuyoColor>, piece: Piece, p: Placement)
    requires
        grid_ok(cfg, s),
        settled(cfg, s),
        place_ok(cfg, s, piece, p),
        piece.axis_color != PuyoColor::Empty,
        piece.satellite_color != PuyoColor::Empty,
    ensures
        ({
            let t = place_spec(cfg, s, piece, p);
            let col = p.col as int;
            let sc = p.spec_satellite();
            let h = column_height(cfg, s, col);
            let hs = column_height(cfg, s, sc);
            &&& t.len() == s.len()
            &&& match p.orientation {
                Orientation::North => {
                    &&& color_at(cfg, t, col, h) == piece.axis_color
                    &&& h + 1 < cfg.rows && color_at(cfg, s, col, h + 1) == PuyoColor::Empty ==> color_at(
                        cfg,
                        t,
                        col,
                        h + 1,
                    ) == piece.satellite_color
                    &&& forall|i: int|
                        0 <= i < s.len() && i != cell_index(cfg, col, h) && i != cell_index(cfg, col, h + 1)
                            ==> #[trigger] t[i] == s[i]
                },
                Orientation::South => {
                    &&& color_at(cfg, t, col, h) == piece.satellite_color
                    &&& color_at(cfg, t, col, h + 1) == piece.axis_color
                    &&& forall|i: int|
                        0 <= i < s.len() && i != cell_index(cfg, col, h) && i != cell_index(cfg, col, h + 1)
                            ==> #[trigger] t[i] == s[i]
                },
                _ => {
                    &&& color_at(cfg, t, col, h) == piece.axis_color
                    &&& color_at(cfg, t, sc, hs) == piece.satellite_color
                    &&& forall|i: int|
                        0 <= i < s.len() && i != cell_index(cfg, col, h) && i != cell_index(cfg, sc, hs)
                            ==> #[trigger] t[i] == s[i]
                },
            }
        }),
{
    let col = p.col as int;
    let h = column_height(cfg, s, col);
    lemma_column_height(cfg, s, col);
    lemma_index_bounds(cfg, col, h);
    match p.orientation {
        Orientation::North => {
            let s1 = drop_spec(cfg, s, col, piece.axis_color);
            lemma_drop_on_top(cfg, s, col, piece.axis_color);
            if h + 1 < cfg.rows && color_at(cfg, s, col, h + 1) == PuyoColor::Empty {
                lemma_index_bounds(cfg, col, h + 1);
                assert(color_at(cfg, s1, col, h + 1) == PuyoColor::Empty);
                assert(place_spec(cfg, s, piece, p) == drop_spec(cfg, s1, col, piece.satellite_color));
            } else {
                if h + 1 < cfg.rows {
                    // a settled board leaves only the top hidden row above an empty cell
                    assert(h + 1 == cfg.rows - 1) by {
                        if h + 1 < cfg.rows - 1 {
                            assert(color_at(cfg, s, col, h + 1) == PuyoColor::Empty);
                        }
                    }
                }
                assert forall|k: int| h < k < cfg.rows implies color_at(cfg, s, col, k) != PuyoColor::Empty by {
                    assert(k == h + 1);
                }
                assert(place_spec(cfg, s, piece, p) == s1);
            }
        },
        Orientation::South => {
            let s1 = drop_spec(cfg, s, col, piece.satellite_color);
            lemma_drop_on_top(cfg, s, col, piece.satellite_color);
            lemma_update_cell(cfg, s, col, h, piece.satellite_color);
            assert(h + 1 < cfg.rows && color_at(cfg, s, col, h + 1) == PuyoColor::Empty) by {
                if h + 1 >= cfg.rows || color_at(cfg, s, col, h + 1) != PuyoColor::Empty {
                    if h + 1 < cfg.rows - 1 {
                        assert(color_at(cfg, s, col, h + 1) == PuyoColor::Empty);
                    }
                    assert forall|k: int| h < k < cfg.rows implies color_at(cfg, s, col, k)
                        != PuyoColor::Empty by {
                        assert(k == h + 1);
                    }
                }
            }
            lemma_index_bounds(cfg, col, h + 1);
            lemma_update_cell(cfg, s1, col, h + 1, piece.axis_color);
        },
        _ => {
            let sc = p.spec_satellite();
            let s1 = drop_spec(cfg, s, col, piece.axis_color);
            lemma_update_cell(cfg, s, col, h, piece.axis_color);
            lemma_drop_facts(cfg, s, col, piece.axis_color);
            let hs = column_height(cfg, s, sc);
            assert(column_height(cfg, s1, sc) == hs);
            lemma_column_height(cfg, s, sc);
            lemma_index_bounds(cfg, sc, hs);
            lemma_update_cell(cfg, s1, sc, hs, piece.satellite_color);
        },
    }
}

/// A list of legal placements over columns `lo..n` has at most one per column.
pub proof fn lemma_legal_list_len(cfg: GameConfig, s: Seq<PuyoColor>, o: Orientation, lo: int, n: int)
    ensures
        legal_list(cfg, s, o, lo, n).len() <= if n > lo {
            n - lo
        } else {
            0
        },
    decreases n - lo,
{
    if n > lo {
        lemma_legal_list_len(cfg, s, o, lo, n - 1);
    }
}

/// A piece has at most `4 * cols - 2` legal placements (North and South in
/// every column, East and West in all but one): ten on three columns.
pub proof fn lemma_enumerate_len(cfg: GameConfig, s: Seq<PuyoColor>, piece: Piece)
    requires
        cfg.cols >= 1,
    ensures
        enumerate_spec(cfg, s, piece).len() <= 4 * cfg.cols - 2,
{
    let cols = cfg.cols as int;
    lemma_legal_list_len(cfg, s, Orientation::North, 0, cols);
    lemma_legal_list_len(cfg, s, Orientation::South, 0, cols);
    lemma_legal_list_len(cfg, s, Orientation::East, 0, cols - 1);
    lemma_legal_list_len(cfg, s, Orientation::West, 1, cols);
    lemma_dedup_members(all_legal(cfg, s));
}

/// Distinct integers taken from `0..n` number at most `n`.
pub proof fn lemma_distinct_below(s: Seq<int>, n: int)
    requires
        n >= 0,
        s.no_duplicates(),
        forall|i: int| 0 <= i < s.len() ==> 0 <= #[trigger] s[i] < n,
    ensures
        s.len() <= n,
{
    s.unique_seq_to_set();
    vstd::set_lib::lemma_int_range(0, n);
    assert forall|x: int| s.to_set().contains(x) implies vstd::set_lib::set_int_range(0, n).contains(
        x,
    ) by {
        assert(s.contains(x));
        let i = choose|i: int| 0 <= i < s.len() && s[i] == x;
        assert(0 <= s[i] < n);
    }
    vstd::set_lib::lemma_len_subset(s.to_set(), vstd::set_lib::set_int_range(0, n));
}

/// A list of legal placements with one orientation is in increasing column order.
pub proof fn lemma_legal_list_sorted(cfg: GameConfig, s: Seq<PuyoColor>, o: Orientation, lo: int, n: int)
    requires
        0 <= lo,
        n <= usize::MAX,
    ensures
        forall|i: int, j: int|
            0 <= i < j < legal_list(cfg, s, o, lo, n).len() ==> legal_list(cfg, s, o, lo, n)[i].col
                < legal_list(cfg, s, o, lo, n)[j].col,
    decreases n - lo,
{
    if n > lo {
        lemma_legal_list_sorted(cfg, s, o, lo, n - 1);
        lemma_legal_list_members(cfg, s, o, lo, n - 1);
    }
}

/// No legal placement is listed twice.
pub proof fn lemma_all_legal_distinct(cfg: GameConfig, s: Seq<PuyoColor>)
    requires
        1 <= cfg.cols <= usize::MAX,
    ensures
        all_legal(cfg, s).no_duplicates(),
{
    let cols = cfg.cols as int;
    let a = legal_list(cfg, s, Orientation::North, 0, cols);
    let b = legal_list(cfg, s, Orientation::South, 0, cols);
    let c = legal_list(cfg, s, Orientation::East, 0, cols - 1);
    let d = legal_list(cfg, s, Orientation::West, 1, cols);
    lemma_legal_list_members(cfg, s, Orientation::North, 0, cols);
    lemma_legal_list_members(cfg, s, Orientation::South, 0, cols);
    lemma_legal_list_members(cfg, s, Orientation::East, 0, cols - 1);
    lemma_legal_list_members(cfg, s, Orientation::West, 1, cols);
    lemma_legal_list_sorted(cfg, s, Orientation::North, 0, cols);
    lemma_legal_list_sorted(cfg, s, Orientation::South, 0, cols);
    lemma_legal_list_sorted(cfg, s, Orientation::East, 0, cols - 1);
    lemma_legal_list_sorted(cfg, s, Orientation::West, 1, cols);
    let all = all_legal(cfg, s);
    assert forall|i: int, j: int| 0 <= i < all.len() && 0 <= j < all.len() && i != j implies all[i]
        != all[j] by {
        let (x, y) = if i < j {
            (i, j)
        } else {
            (j, i)
        };
        let ab = a.len() as int;
        let bb = ab + b.len();
        let cb = bb + c.len();
        if y < ab {
            assert(all[x] == a[x] && all[y] == a[y]);
        } else if y < bb {
            assert(all[y] == b[y - ab]);
            if x >= ab {
                assert(all[x] == b[x - ab]);
            } else {
                assert(all[x] == a[x]);
            }
        } else if y < cb {
            assert(all[y] == c[y - bb]);
            if x >= bb {
                assert(all[x] == c[x - bb]);
            } else if x >= ab {
                assert(all[x] == b[x - ab]);
            } else {
                assert(all[x] == a[x]);
            }
        } else {
            assert(all[y] == d[y - cb]);
            if x >= cb {
                assert(all[x] == d[x - cb]);
            } else if x >= bb {
                assert(all[x] == c[x - bb]);
            } else if x >= ab {
                assert(all[x] == b[x - ab]);
            } else {
                assert(all[x] == a[x]);
            }
        }
    }
}

/// The placements kept by `dedup_norm` have pairwise different shapes.
pub proof fn lemma_dedup_distinct_norms(ps: Seq<Placement>)
    ensures
        forall|i: int, j: int|
            0 <= i < j < dedup_norm(ps).len() ==> norm(dedup_norm(ps)[i]) != norm(dedup_norm(ps)[j]),
    decreases ps.len(),
{
    if ps.len() > 0 {
        lemma_dedup_distinct_norms(ps.drop_last());
        let d = dedup_norm(ps.drop_last());
        if !(exists|i: int| 0 <= i < d.len() && norm(#[trigger] d[i]) == norm(ps.last())) {
            let r = d.push(ps.last());
            assert(dedup_norm(ps) == r);
            assert forall|i: int, j: int| 0 <= i < j < r.len() implies norm(r[i]) != norm(r[j]) by {
                if j == d.len() {
                    assert(r[i] == d[i]);
                    assert(r[j] == ps.last());
                } else {
                    assert(r[i] == d[i] && r[j] == d[j]);
                }
            }
        }
    }
}

/// `enumerate_placements` lists no placement twice.
pub proof fn lemma_enumerate_distinct(cfg: GameConfig, s: Seq<PuyoColor>, piece: Piece)
    requires
        1 <= cfg.cols <= usize::MAX,
    ensures
        enumerate_spec(cfg, s, piece).no_duplicates(),
{
    lemma_all_legal_distinct(cfg, s);
    lemma_dedup_distinct_norms(all_legal(cfg, s));
}

/// The listed placements have pairwise different action indices, so the
/// valid-action mask marks exactly as many entries as there are placements.
pub proof fn lemma_enumerate_indices_distinct(cfg: GameConfig, s: Seq<PuyoColor>, piece: Piece)
    requires
        1 <= cfg.cols <= usize::MAX,
    ensures
        forall|i: int, j: int|
            0 <= i < enumerate_spec(cfg, s, piece).len() && 0 <= j < enumerate_spec(cfg, s, piece).len()
                && i != j ==> spec_placement_index(enumerate_spec(cfg, s, piece)[i])
                != spec_placement_index(enumerate_spec(cfg, s, piece)[j]),
{
    lemma_enumerate_distinct(cfg, s, piece);
    let e = enumerate_spec(cfg, s, piece);
    assert forall|i: int, j: int| 0 <= i < e.len() && 0 <= j < e.len() && i != j implies spec_placement_index(e[i])
        != spec_placement_index(e[j]) by {
        lemma_index_roundtrip(e[i], 0);
        lemma_index_roundtrip(e[j], 0);
    }
}

/// With both puyos of one colour a piece has at most `2 * cols - 1` listed
/// placements (one vertical per column, one horizontal per pair of
/// neighbouring columns): five on three columns.
pub proof fn lemma_same_color_len(cfg: GameConfig, s: Seq<PuyoColor>, piece: Piece)
    requires
        1 <= cfg.cols,
        piece.axis_color == piece.satellite_color,
    ensures
        enumerate_spec(cfg, s, piece).len() <= 2 * cfg.cols - 1,
{
    let d = enumerate_spec(cfg, s, piece);
    let cols = cfg.cols as int;
    lemma_enumerate_legal(cfg, s, piece);
    lemma_dedup_distinct_norms(all_legal(cfg, s));
    let key = |p: Placement|
        if norm(p).2 {
            norm(p).0
        } else {
            cols + norm(p).0
        };
    let ks = d.map_values(key);
    assert forall|i: int| 0 <= i < ks.len() implies 0 <= #[trigger] ks[i] < 2 * cols - 1 by {
        lemma_legal_on_board(cfg, s, d[i]);
    }
    assert forall|i: int, j: int| 0 <= i < ks.len() && 0 <= j < ks.len() && i != j implies ks[i]
        != ks[j] by {
        lemma_legal_on_board(cfg, s, d[i]);
        lemma_legal_on_board(cfg, s, d[j]);
        if i < j {
            assert(norm(d[i]) != norm(d[j]));
        } else {
            assert(norm(d[j]) != norm(d[i]));
        }
    }
    lemma_distinct_below(ks, 2 * cols - 1);
}

/// A legal placement with orientation `o` and column in `lo..n` is in the
/// list of legal placements with that orientation.
pub proof fn lemma_legal_list_complete(
    cfg: GameConfig,
    s: Seq<PuyoColor>,
    o: Orientation,
    lo: int,
    n: int,
    p: Placement,
)
    requires
        legal_placement(cfg, s, p),
        p.orientation == o,
        lo <= p.col < n,
    ensures
        legal_list(cfg, s, o, lo, n).contains(p),
    decreases n - lo,
{
    let q = Placement { col: (n - 1) as usize, orientation: o };
    if p.col == n - 1 {
        assert(p == q);
        assert(legal_list(cfg, s, o, lo, n).last() == p);
    } else {
        lemma_legal_list_complete(cfg, s, o, lo, n - 1, p);
        let l = legal_list(cfg, s, o, lo, n - 1);
        let j = choose|j: int| 0 <= j < l.len() && l[j] == p;
        if legal_placement(cfg, s, q) {
            assert(legal_list(cfg, s, o, lo, n)[j] == p);
        }
    }
}

/// No placement before position `m` has the shape of the one at `m`.
pub open spec fn first_of_shape(ps: Seq<Placement>, m: int) -> bool {
    forall|j: int| 0 <= j < m ==> norm(#[trigger] ps[j]) != norm(ps[m])
}

/// Every placement `dedup_norm` keeps comes from the list, at a position
/// where no earlier placement has its shape.
pub proof fn lemma_dedup_first(ps: Seq<Placement>)
    ensures
        forall|k: int|
            0 <= k < dedup_norm(ps).len() ==> exists|m: int|
                0 <= m < ps.len() && ps[m] == #[trigger] dedup_norm(ps)[k] && first_of_shape(ps, m),
    decreases ps.len(),
{
    if ps.len() > 0 {
        let init = ps.drop_last();
        let last = ps.last();
        let d = dedup_norm(init);
        lemma_dedup_first(init);
        let found = exists|i: int| 0 <= i < d.len() && norm(#[trigger] d[i]) == norm(last);
        assert(dedup_norm(ps) == if found {
            d
        } else {
            d.push(last)
        });
        assert forall|k: int| 0 <= k < d.len() implies exists|m: int|
            0 <= m < ps.len() && ps[m] == #[trigger] d[k] && first_of_shape(ps, m) by {
            let m = choose|m: int|
                0 <= m < init.len() && init[m] == #[trigger] d[k] && first_of_shape(init, m);
            assert(ps[m] == init[m]);
            assert forall|j: int| 0 <= j < m implies norm(#[trigger] ps[j]) != norm(ps[m]) by {
                assert(ps[j] == init[j]);
                assert(norm(init[j]) != norm(init[m]));
            }
            assert(first_of_shape(ps, m));
        }
        if !found {
            let m = ps.len() - 1;
            assert forall|j: int| 0 <= j < m implies norm(#[trigger] ps[j]) != norm(ps[m]) by {
                assert(ps[j] == init[j]);
                if norm(ps[j]) == norm(last) {
                    lemma_dedup_covers(init);
                    let i = choose|i: int| 0 <= i < d.len() && norm(d[i]) == norm(#[trigger] init[j]);
                    assert(norm(d[i]) == norm(last));
                    assert(found);
                }
            }
            assert(first_of_shape(ps, m));
            assert(d.push(last)[d.len() as int] == ps[m]);
        }
    }
}

/// Every shape of the list is the shape of some placement `dedup_norm` keeps.
pub proof fn lemma_dedup_covers(ps: Seq<Placement>)
    ensures
        forall|j: int|
            0 <= j < ps.len() ==> exists|i: int|
                0 <= i < dedup_norm(ps).len() && norm(dedup_norm(ps)[i]) == norm(#[trigger] ps[j]),
    decreases ps.len(),
{
    if ps.len() > 0 {
        let init = ps.drop_last();
        lemma_dedup_covers(init);
        let d = dedup_norm(init);
        assert forall|j: int| 0 <= j < ps.len() implies exists|i: int|
            0 <= i < dedup_norm(ps).len() && norm(dedup_norm(ps)[i]) == norm(#[trigger] ps[j]) by {
            if j < init.len() {
                assert(ps[j] == init[j]);
                let i = choose|i: int| 0 <= i < d.len() && norm(d[i]) == norm(init[j]);
                assert(dedup_norm(ps)[i] == d[i]);
            } else if exists|i: int| 0 <= i < d.len() && norm(#[trigger] d[i]) == norm(ps.last()) {
                let i = choose|i: int| 0 <= i < d.len() && norm(#[trigger] d[i]) == norm(ps.last());
                assert(dedup_norm(ps)[i] == d[i]);
            } else {
                assert(dedup_norm(ps)[d.len() as int] == ps.last());
            }
        }
    }
}

/// For a piece with both puyos of one colour, every listed placement can be
/// carried out on any board: South, the only placement that may lack room,
/// always shares its shape with the North placement in its column, which is
/// legal too and listed first.
pub proof fn lemma_twin_listed_placeable(cfg: GameConfig, s: Seq<PuyoColor>, piece: Piece)
    requires
        grid_ok(cfg, s),
        piece.axis_color == piece.satellite_color,
    ensures
        forall|k: int|
            0 <= k < enumerate_spec(cfg, s, piece).len() ==> place_ok(
                cfg,
                s,
                piece,
                #[trigger] enumerate_spec(cfg, s, piece)[k],
            ),
{
    let all = all_legal(cfg, s);
    let d = enumerate_spec(cfg, s, piece);
    let cols = cfg.cols as int;
    let a = legal_list(cfg, s, Orientation::North, 0, cols);
    lemma_all_legal_members(cfg, s);
    lemma_dedup_members(all);
    lemma_dedup_first(all);
    lemma_legal_list_members(cfg, s, Orientation::North, 0, cols);
    assert forall|k: int| 0 <= k < d.len() implies place_ok(cfg, s, piece, #[trigger] d[k]) by {
        let p = d[k];
        let m = choose|m: int| 0 <= m < all.len() && all[m] == #[trigger] d[k] && first_of_shape(all, m);
        assert(legal_placement(cfg, s, all[m]));
        lemma_legal_on_board(cfg, s, p);
        if p.orientation == Orientation::South {
            let q = Placement { col: p.col, orientation: Orientation::North };
            assert(legal_placement(cfg, s, q));
            lemma_legal_list_complete(cfg, s, Orientation::North, 0, cols, q);
            let j = choose|j: int| 0 <= j < a.len() && a[j] == q;
            assert(all[j] == a[j]);
            if m < a.len() {
                assert(all[m] == a[m]);
                assert(a[m].orientation == Orientation::North);
            }
            assert(norm(all[j]) == norm(p));
            assert(j < m);
            assert(norm(all[j]) != norm(all[m]));
            assert(false);
        }
        lemma_drop_facts(cfg, s, p.col as int, piece.axis_color);
    }
}

} // verus!
