//! The mathematics of chain resolution: counting puyos, clearing groups, and
//! what resolving every chain of a board gives.

use vstd::prelude::*;
use crate::board::PuyoColor;
use crate::config::GameConfig;
use crate::grid::{
    col_kept, color_at, gravity, gravity_cell, grid_ok, in_grid, lemma_col_kept_len,
    lemma_gravity_cells, lemma_gravity_settled, lemma_index_bounds, lemma_index_recompose,
    settled, Cell,
};
use crate::groups::{
    ccolor, cgrid, cidx, clearable, cvis, equiv_groups, is_decomposition, is_group,
    lemma_decomposition_unique, lemma_groups_meet, same_cells, GroupView,
};
use crate::score::{lemma_step_score_bound, lemma_step_score_facts, step_score, total_cleared};

verus! {

/// Number of puyos (non-empty cells).
pub open spec fn colored_count(s: Seq<PuyoColor>) -> nat
    decreases s.len(),
{
    if s.len() == 0 {
        0
    } else {
        colored_count(s.drop_last()) + if s.last() != PuyoColor::Empty {
            1nat
        } else {
            0nat
        }
    }
}

/// A board holds at most as many puyos as cells.
pub proof fn lemma_count_bound(s: Seq<PuyoColor>)
    ensures
        colored_count(s) <= s.len(),
    decreases s.len(),
{
    if s.len() > 0 {
        lemma_count_bound(s.drop_last());
    }
}

/// Emptying one filled cell removes exactly one puyo.
pub proof fn lemma_count_clear_one(s: Seq<PuyoColor>, i: int)
    requires
        0 <= i < s.len(),
        s[i] != PuyoColor::Empty,
    ensures
        colored_count(s.update(i, PuyoColor::Empty)) + 1 == colored_count(s),
    decreases s.len(),
{
    if i == s.len() - 1 {
        assert(s.update(i, PuyoColor::Empty).drop_last() =~= s.drop_last());
    } else {
        assert(s.update(i, PuyoColor::Empty).drop_last() =~= s.drop_last().update(
            i,
            PuyoColor::Empty,
        ));
        lemma_count_clear_one(s.drop_last(), i);
    }
}

/// Number of puyos in columns `0..c`.
pub open spec fn cols_count(cfg: GameConfig, s: Seq<PuyoColor>, c: int) -> nat
    decreases c,
{
    if c <= 0 {
        0
    } else {
        cols_count(cfg, s, c - 1) + col_kept(cfg, s, c - 1, cfg.rows as int).len()
    }
}

proof fn lemma_count_prefix(cfg: GameConfig, s: Seq<PuyoColor>, c: int, n: int)
    requires
        grid_ok(cfg, s),
        0 <= c < cfg.cols,
        0 <= n <= cfg.rows,
    ensures
        colored_count(s.take(c * cfg.rows + n)) == cols_count(cfg, s, c) + col_kept(
            cfg,
            s,
            c,
            n,
        ).len(),
    decreases c, n,
{
    let rows = cfg.rows as int;
    if n == 0 {
        if c == 0 {
            assert(s.take(0) =~= Seq::<PuyoColor>::empty());
            assert(c * rows == 0) by (nonlinear_arith)
                requires
                    c == 0,
            ;
            assert(s.take(c * rows + n) == s.take(0));
            assert(colored_count(s.take(0)) == 0);
            assert(cols_count(cfg, s, c) == 0);
            assert(col_kept(cfg, s, c, n).len() == 0);
        } else {
            lemma_count_prefix(cfg, s, c - 1, rows);
            assert((c - 1) * rows + rows == c * rows) by (nonlinear_arith);
            assert(s.take((c - 1) * rows + rows) == s.take(c * rows + n));
            assert(col_kept(cfg, s, c, 0).len() == 0);
        }
    } else {
        lemma_count_prefix(cfg, s, c, n - 1);
        lemma_index_bounds(cfg, c, n - 1);
        let i = c * rows + n - 1;
        assert(s.take(i + 1).drop_last() =~= s.take(i));
        assert(s.take(i + 1).last() == color_at(cfg, s, c, n - 1));
        assert(colored_count(s.take(i + 1)) == colored_count(s.take(i)) + if color_at(cfg, s, c, n - 1)
            != PuyoColor::Empty {
            1nat
        } else {
            0nat
        });
        assert(s.take(i) == s.take(c * rows + (n - 1)));
        assert(s.take(i + 1) == s.take(c * rows + n));
        assert(col_kept(cfg, s, c, n).len() == col_kept(cfg, s, c, n - 1).len() + if color_at(
            cfg,
            s,
            c,
            n - 1,
        ) != PuyoColor::Empty {
            1nat
        } else {
            0nat
        });
    }
}

/// The number of puyos, column by column.
pub proof fn lemma_count_cols(cfg: GameConfig, s: Seq<PuyoColor>)
    requires
        grid_ok(cfg, s),
    ensures
        colored_count(s) == cols_count(cfg, s, cfg.cols as int),
{
    let c = cfg.cols - 1;
    lemma_count_prefix(cfg, s, c, cfg.rows as int);
    assert(c * cfg.rows + cfg.rows == cfg.cols * cfg.rows) by (nonlinear_arith)
        requires
            c == cfg.cols - 1,
    ;
    assert(s.take(cfg.cols * cfg.rows) =~= s);
}

/// After gravity, the lower rows of a column start with the puyos it kept.
proof fn lemma_gravity_col_prefix(cfg: GameConfig, s: Seq<PuyoColor>, c: int, n: int)
    requires
        grid_ok(cfg, s),
        0 <= c < cfg.cols,
        0 <= n <= cfg.rows - 1,
    ensures
        col_kept(cfg, gravity(cfg, s), c, n) == col_kept(cfg, s, c, cfg.rows - 1).take(
            if n < col_kept(cfg, s, c, cfg.rows - 1).len() {
                n
            } else {
                col_kept(cfg, s, c, cfg.rows - 1).len() as int
            },
        ),
    decreases n,
{
    let kept = col_kept(cfg, s, c, cfg.rows - 1);
    lemma_col_kept_len(cfg, s, c, cfg.rows - 1);
    lemma_gravity_cells(cfg, s);
    if n == 0 {
        assert(kept.take(0) =~= Seq::<PuyoColor>::empty());
    } else {
        lemma_gravity_col_prefix(cfg, s, c, n - 1);
        assert(in_grid(cfg, c, n - 1));
        assert(color_at(cfg, gravity(cfg, s), c, n - 1) == gravity_cell(cfg, s, c, n - 1));
        if n - 1 < kept.len() {
            assert(kept.take(n) =~= kept.take(n - 1).push(kept[n - 1]));
        }
    }
}

/// Gravity keeps the number of puyos in each column.
proof fn lemma_gravity_col_count(cfg: GameConfig, s: Seq<PuyoColor>, c: int)
    requires
        grid_ok(cfg, s),
        0 <= c < cfg.cols,
    ensures
        col_kept(cfg, gravity(cfg, s), c, cfg.rows as int).len() == col_kept(
            cfg,
            s,
            c,
            cfg.rows as int,
        ).len(),
{
    let kept = col_kept(cfg, s, c, cfg.rows - 1);
    lemma_col_kept_len(cfg, s, c, cfg.rows - 1);
    lemma_gravity_col_prefix(cfg, s, c, cfg.rows - 1);
    assert(kept.take(kept.len() as int) =~= kept);
    lemma_gravity_cells(cfg, s);
    assert(in_grid(cfg, c, cfg.rows - 1));
}

proof fn lemma_gravity_cols_count(cfg: GameConfig, s: Seq<PuyoColor>, c: int)
    requires
        grid_ok(cfg, s),
        0 <= c <= cfg.cols,
    ensures
        cols_count(cfg, gravity(cfg, s), c) == cols_count(cfg, s, c),
    decreases c,
{
    if c > 0 {
        lemma_gravity_cols_count(cfg, s, c - 1);
        lemma_gravity_col_count(cfg, s, c - 1);
    }
}

/// Gravity keeps the number of puyos.
pub proof fn lemma_gravity_count(cfg: GameConfig, s: Seq<PuyoColor>)
    requires
        grid_ok(cfg, s),
    ensures
        grid_ok(cfg, gravity(cfg, s)),
        colored_count(gravity(cfg, s)) == colored_count(s),
{
    lemma_gravity_cells(cfg, s);
    lemma_count_cols(cfg, s);
    lemma_count_cols(cfg, gravity(cfg, s));
    lemma_gravity_cols_count(cfg, s, cfg.cols as int);
}

} // verus!

verus! {

// ---- Clearing groups ----

/// The colour and size of each group: what the score of a step depends on.
pub open spec fn view_sig(gs: Seq<GroupView>) -> Seq<(PuyoColor, nat)> {
    gs.map_values(|g: GroupView| (g.0, g.1.len()))
}

/// Cell `x` belongs to one of the groups.
pub open spec fn in_some(gs: Seq<GroupView>, x: Cell) -> bool {
    exists|k: int| 0 <= k < gs.len() && (#[trigger] gs[k].1.contains(x))
}

/// The cell at position `i` of the column-major sequence.
pub open spec fn cell_of(cfg: GameConfig, i: int) -> Cell {
    ((i / cfg.rows as int) as usize, (i % cfg.rows as int) as usize)
}

/// The board with every cell of the groups emptied.
pub open spec fn clear_groups(cfg: GameConfig, s: Seq<PuyoColor>, gs: Seq<GroupView>) -> Seq<
    PuyoColor,
> {
    Seq::new(
        s.len(),
        |i: int|
            if in_some(gs, cell_of(cfg, i)) {
                PuyoColor::Empty
            } else {
                s[i]
            },
    )
}

/// Emptying groups empties exactly the cells listed in them.
pub proof fn lemma_clear_cells(cfg: GameConfig, s: Seq<PuyoColor>, gs: Seq<GroupView>)
    requires
        grid_ok(cfg, s),
    ensures
        grid_ok(cfg, clear_groups(cfg, s, gs)),
        forall|x: Cell|
            #![trigger ccolor(cfg, clear_groups(cfg, s, gs), x)]
            cgrid(cfg, x) ==> ccolor(cfg, clear_groups(cfg, s, gs), x) == if in_some(gs, x) {
                PuyoColor::Empty
            } else {
                ccolor(cfg, s, x)
            },
{
    assert forall|x: Cell| cgrid(cfg, x) implies ccolor(cfg, clear_groups(cfg, s, gs), x) == if in_some(
        gs,
        x,
    ) {
        PuyoColor::Empty
    } else {
        ccolor(cfg, s, x)
    } by {
        lemma_index_bounds(cfg, x.0 as int, x.1 as int);
        lemma_index_recompose(cfg, x.0 as int, x.1 as int);
        assert(cell_of(cfg, cidx(cfg, x)) == x);
    }
}

/// Listings that agree group by group hold the same cells.
pub proof fn lemma_equiv_in_some(a: Seq<GroupView>, b: Seq<GroupView>, x: Cell)
    requires
        equiv_groups(a, b),
    ensures
        in_some(a, x) == in_some(b, x),
{
    if in_some(a, x) {
        let k = choose|k: int| 0 <= k < a.len() && (#[trigger] a[k].1.contains(x));
        assert(same_cells(a[k].1, b[k].1));
        assert(b[k].1.contains(x));
    }
    if in_some(b, x) {
        let k = choose|k: int| 0 <= k < b.len() && (#[trigger] b[k].1.contains(x));
        assert(same_cells(a[k].1, b[k].1));
        assert(a[k].1.contains(x));
    }
}

/// Listings that agree group by group clear the same board and score the same.
pub proof fn lemma_equiv_clear(cfg: GameConfig, s: Seq<PuyoColor>, a: Seq<GroupView>, b: Seq<GroupView>)
    requires
        equiv_groups(a, b),
    ensures
        clear_groups(cfg, s, a) == clear_groups(cfg, s, b),
        view_sig(a) == view_sig(b),
{
    assert forall|i: int| 0 <= i < s.len() implies clear_groups(cfg, s, a)[i] == clear_groups(
        cfg,
        s,
        b,
    )[i] by {
        lemma_equiv_in_some(a, b, cell_of(cfg, i));
    }
    assert(clear_groups(cfg, s, a) =~= clear_groups(cfg, s, b));
    assert(view_sig(a) =~= view_sig(b));
}

/// Listings that agree group by group keep agreeing once the small groups are dropped.
pub proof fn lemma_equiv_clearable(a: Seq<GroupView>, b: Seq<GroupView>)
    requires
        equiv_groups(a, b),
    ensures
        equiv_groups(clearable(a), clearable(b)),
    decreases a.len(),
{
    if a.len() > 0 {
        assert(equiv_groups(a.drop_last(), b.drop_last()));
        lemma_equiv_clearable(a.drop_last(), b.drop_last());
        assert(a.last() == a[a.len() - 1]);
        assert(b.last() == b[b.len() - 1]);
    }
}

/// Every group that clears is one of the listed groups, with at least four cells.
pub proof fn lemma_clearable_members(d: Seq<GroupView>)
    ensures
        forall|k: int|
            0 <= k < clearable(d).len() ==> exists|m: int|
                0 <= m < d.len() && (#[trigger] clearable(d)[k]) == d[m],
        forall|k: int| 0 <= k < clearable(d).len() ==> (#[trigger] clearable(d)[k]).1.len() >= 4,
    decreases d.len(),
{
    if d.len() > 0 {
        lemma_clearable_members(d.drop_last());
        let c0 = clearable(d.drop_last());
        assert forall|k: int| 0 <= k < clearable(d).len() implies exists|m: int|
            0 <= m < d.len() && (#[trigger] clearable(d)[k]) == d[m] by {
            if k < c0.len() {
                assert(clearable(d)[k] == c0[k]);
                let m = choose|m: int| 0 <= m < d.drop_last().len() && c0[k] == d.drop_last()[m];
                assert(clearable(d)[k] == d[m]);
            } else {
                assert(clearable(d)[k] == d[d.len() - 1]);
            }
        }
    }
}

/// Every listed group of at least four cells is among the groups that clear.
pub proof fn lemma_clearable_includes(d: Seq<GroupView>, j: int)
    requires
        0 <= j < d.len(),
        d[j].1.len() >= 4,
    ensures
        exists|k: int| 0 <= k < clearable(d).len() && #[trigger] clearable(d)[k] == d[j],
    decreases d.len(),
{
    let c0 = clearable(d.drop_last());
    if j == d.len() - 1 {
        assert(clearable(d)[c0.len() as int] == d[j]);
    } else {
        assert(d.drop_last()[j] == d[j]);
        lemma_clearable_includes(d.drop_last(), j);
        let k = choose|k: int| 0 <= k < c0.len() && #[trigger] c0[k] == d[j];
        assert(clearable(d)[k] == c0[k]);
    }
}

/// The groups are pairwise disjoint.
pub open spec fn pairwise_disjoint(gs: Seq<GroupView>) -> bool {
    forall|k1: int, k2: int, x: Cell|
        0 <= k1 < gs.len() && 0 <= k2 < gs.len() && k1 != k2 && (#[trigger] gs[k1].1.contains(x))
            ==> !(#[trigger] gs[k2].1.contains(x))
}

proof fn lemma_clearable_disjoint(d: Seq<GroupView>)
    requires
        pairwise_disjoint(d),
    ensures
        pairwise_disjoint(clearable(d)),
    decreases d.len(),
{
    if d.len() > 0 {
        let d0 = d.drop_last();
        assert(pairwise_disjoint(d0)) by {
            assert forall|k1: int, k2: int, x: Cell|
                0 <= k1 < d0.len() && 0 <= k2 < d0.len() && k1 != k2 && (
                #[trigger] d0[k1].1.contains(x)) implies !(#[trigger] d0[k2].1.contains(x)) by {
                assert(d0[k1] == d[k1] && d0[k2] == d[k2]);
            }
        }
        lemma_clearable_disjoint(d0);
        lemma_clearable_members(d0);
        let c0 = clearable(d0);
        let c = clearable(d);
        if d.last().1.len() >= 4 {
            assert forall|k1: int, k2: int, x: Cell|
                0 <= k1 < c.len() && 0 <= k2 < c.len() && k1 != k2 && (
                #[trigger] c[k1].1.contains(x)) implies !(#[trigger] c[k2].1.contains(x)) by {
                if k1 == c0.len() || k2 == c0.len() {
                    let k = if k1 == c0.len() {
                        k2
                    } else {
                        k1
                    };
                    assert(c[k] == c0[k]);
                    let m = choose|m: int| 0 <= m < d0.len() && (#[trigger] c0[k]) == d0[m];
                    assert(d0[m] == d[m]);
                    assert(c[c0.len() as int] == d[d.len() - 1]);
                } else {
                    assert(c[k1] == c0[k1] && c[k2] == c0[k2]);
                }
            }
        }
    }
}

/// Facts about the groups that clear in one step.
pub proof fn lemma_clearable_facts(cfg: GameConfig, s: Seq<PuyoColor>, d: Seq<GroupView>)
    requires
        is_decomposition(cfg, s, d),
    ensures
        forall|k: int|
            0 <= k < clearable(d).len() ==> is_group(
                cfg,
                s,
                (#[trigger] clearable(d)[k]).0,
                clearable(d)[k].1,
            ) && clearable(d)[k].1.len() >= 4,
        pairwise_disjoint(clearable(d)),
{
    reveal(is_decomposition);
    lemma_clearable_members(d);
    lemma_clearable_disjoint(d);
    assert forall|k: int| 0 <= k < clearable(d).len() implies is_group(
        cfg,
        s,
        (#[trigger] clearable(d)[k]).0,
        clearable(d)[k].1,
    ) by {
        let m = choose|m: int| 0 <= m < d.len() && clearable(d)[k] == d[m];
        assert(is_group(cfg, s, d[m].0, d[m].1));
    }
}

/// Adding one more group to a prefix of a listing adds its cells and its size.
pub proof fn lemma_in_some_take(gs: Seq<GroupView>, i: int, x: Cell)
    requires
        0 <= i < gs.len(),
    ensures
        in_some(gs.take(i + 1), x) == (in_some(gs.take(i), x) || gs[i].1.contains(x)),
        total_cleared(view_sig(gs.take(i + 1))) == total_cleared(view_sig(gs.take(i))) + gs[i].1.len(),
{
    assert(view_sig(gs.take(i + 1)).drop_last() =~= view_sig(gs.take(i)));
    if in_some(gs.take(i + 1), x) {
        let k = choose|k: int| 0 <= k < gs.take(i + 1).len() && (#[trigger] gs.take(i + 1)[k].1.contains(x));
        if k < i {
            assert(gs.take(i)[k] == gs.take(i + 1)[k]);
        }
    }
    if in_some(gs.take(i), x) {
        let k = choose|k: int| 0 <= k < gs.take(i).len() && (#[trigger] gs.take(i)[k].1.contains(x));
        assert(gs.take(i)[k] == gs.take(i + 1)[k]);
    }
    if gs[i].1.contains(x) {
        assert(gs.take(i + 1)[i] == gs[i]);
    }
}

// ---- Resolving chains ----

/// The board's listing of its groups (unique, see
/// `lemma_decomposition_unique`).
pub open spec fn listing(cfg: GameConfig, s: Seq<PuyoColor>) -> Seq<GroupView> {
    choose|d: Seq<GroupView>| is_decomposition(cfg, s, d)
}

/// The groups that clear in the next step.
pub open spec fn step_groups(cfg: GameConfig, s: Seq<PuyoColor>) -> Seq<GroupView> {
    clearable(listing(cfg, s))
}

/// The board after one step: the clearing groups emptied, then gravity.
pub open spec fn step_board(cfg: GameConfig, s: Seq<PuyoColor>) -> Seq<PuyoColor> {
    gravity(cfg, clear_groups(cfg, s, step_groups(cfg, s)))
}

/// Resolving every chain of a board, from chain number `chain_num` on:
/// the number of chains, the total score, and the final board.  Each step
/// empties the groups of at least four same-colour puyos and applies gravity;
/// resolution ends on a board with no such group.
pub open spec fn chain_outcome(cfg: GameConfig, s: Seq<PuyoColor>, chain_num: int) -> (
    nat,
    int,
    Seq<PuyoColor>,
)
    decreases colored_count(s),
{
    if step_groups(cfg, s).len() == 0 {
        (0, 0, s)
    } else {
        let s2 = step_board(cfg, s);
        let here = step_score(chain_num, view_sig(step_groups(cfg, s)));
        if colored_count(s2) < colored_count(s) {
            let rest = chain_outcome(cfg, s2, chain_num + 1);
            (rest.0 + 1, here + rest.1, rest.2)
        } else {
            (1, here, s2)
        }
    }
}

/// Every chain of a resolution scores at least 40 (four puyos at ten points
/// each), so the total score is at least 40 times the number of chains.
pub proof fn lemma_outcome_score_per_chain(cfg: GameConfig, s: Seq<PuyoColor>, chain_num: int)
    ensures
        chain_outcome(cfg, s, chain_num).1 >= 40 * chain_outcome(cfg, s, chain_num).0,
    decreases colored_count(s),
{
    let gs = step_groups(cfg, s);
    if gs.len() > 0 {
        let sig = view_sig(gs);
        lemma_clearable_members(listing(cfg, s));
        assert forall|k: int| 0 <= k < sig.len() implies (#[trigger] sig[k]).1 >= 4 by {
            assert(sig[k] == (gs[k].0, gs[k].1.len()));
        }
        lemma_step_score_bound(chain_num, sig);
        lemma_step_score_facts(chain_num, sig);
        let s2 = step_board(cfg, s);
        if colored_count(s2) < colored_count(s) {
            lemma_outcome_score_per_chain(cfg, s2, chain_num + 1);
        }
    }
}

/// Chain scores are never negative.
pub proof fn lemma_outcome_nonneg(cfg: GameConfig, s: Seq<PuyoColor>, chain_num: int)
    ensures
        chain_outcome(cfg, s, chain_num).1 >= 0,
    decreases colored_count(s),
{
    if step_groups(cfg, s).len() > 0 {
        lemma_step_score_facts(chain_num, view_sig(step_groups(cfg, s)));
        let s2 = step_board(cfg, s);
        if colored_count(s2) < colored_count(s) {
            lemma_outcome_nonneg(cfg, s2, chain_num + 1);
        }
    }
}

/// The board holds few enough puyos for every chain score to fit in a
/// `u32`: with `n` puyos a step scores at most `6840 n + 25 n^2`, and so does
/// a whole resolution.
pub open spec fn few_puyos(s: Seq<PuyoColor>) -> bool {
    6840 * colored_count(s) + 25 * colored_count(s) * colored_count(s) <= u32::MAX
}

/// Resolving the board's chains scores at most `u32::MAX` in all (which
/// holds on every board with few puyos).
pub open spec fn chain_fits(cfg: GameConfig, s: Seq<PuyoColor>) -> bool {
    few_puyos(s) || chain_outcome(cfg, s, 1).1 <= u32::MAX
}

/// The next chain step, scored as chain `chain_num`, scores at most
/// `u32::MAX` (which holds on every board with few puyos).
pub open spec fn step_fits(cfg: GameConfig, s: Seq<PuyoColor>, chain_num: int) -> bool {
    few_puyos(s) || step_score(chain_num, view_sig(step_groups(cfg, s))) <= u32::MAX
}

/// The groups that clear in a step are exactly the connected same-colour
/// groups of at least four puyos in the visible rows: each of them is such a
/// group, they share no cell, and every such group of the board is one of
/// them (same colour, same cells).
pub proof fn lemma_step_groups_exact(cfg: GameConfig, s: Seq<PuyoColor>)
    requires
        is_decomposition(cfg, s, listing(cfg, s)),
    ensures
        forall|k: int|
            0 <= k < step_groups(cfg, s).len() ==> is_group(
                cfg,
                s,
                (#[trigger] step_groups(cfg, s)[k]).0,
                step_groups(cfg, s)[k].1,
            ) && step_groups(cfg, s)[k].1.len() >= 4,
        pairwise_disjoint(step_groups(cfg, s)),
        forall|color: PuyoColor, cells: Seq<Cell>|
            #[trigger] is_group(cfg, s, color, cells) && cells.len() >= 4 ==> exists|k: int|
                0 <= k < step_groups(cfg, s).len() && (#[trigger] step_groups(cfg, s)[k]).0 == color
                    && same_cells(step_groups(cfg, s)[k].1, cells),
{
    let d = listing(cfg, s);
    lemma_clearable_facts(cfg, s, d);
    assert forall|color: PuyoColor, cells: Seq<Cell>|
        #[trigger] is_group(cfg, s, color, cells) && cells.len() >= 4 implies exists|k: int|
            0 <= k < step_groups(cfg, s).len() && (#[trigger] step_groups(cfg, s)[k]).0 == color
                && same_cells(step_groups(cfg, s)[k].1, cells) by {
        let x = cells[0];
        assert(cvis(cfg, x) && ccolor(cfg, s, x) == color);
        reveal(is_decomposition);
        let j = choose|j: int| 0 <= j < d.len() && (#[trigger] d[j].1.contains(x));
        assert(is_group(cfg, s, d[j].0, d[j].1));
        assert(cells.contains(x));
        lemma_groups_meet(cfg, s, d[j].0, d[j].1, color, cells, x);
        lemma_clearable_includes(d, j);
        let k = choose|k: int| 0 <= k < clearable(d).len() && #[trigger] clearable(d)[k] == d[j];
        assert(step_groups(cfg, s)[k] == d[j]);
    }
}

/// A chain step leaves the top hidden row as it is: the groups it clears lie
/// in the visible rows, and gravity does not move the top row.
pub proof fn lemma_step_keeps_top(cfg: GameConfig, s: Seq<PuyoColor>)
    requires
        grid_ok(cfg, s),
        is_decomposition(cfg, s, listing(cfg, s)),
    ensures
        forall|c: int|
            0 <= c < cfg.cols ==> #[trigger] color_at(cfg, step_board(cfg, s), c, cfg.rows - 1)
                == color_at(cfg, s, c, cfg.rows - 1),
{
    let gs = step_groups(cfg, s);
    let cl = clear_groups(cfg, s, gs);
    lemma_clear_cells(cfg, s, gs);
    lemma_clearable_facts(cfg, s, listing(cfg, s));
    lemma_gravity_cells(cfg, cl);
    assert forall|c: int| 0 <= c < cfg.cols implies #[trigger] color_at(
        cfg,
        step_board(cfg, s),
        c,
        cfg.rows - 1,
    ) == color_at(cfg, s, c, cfg.rows - 1) by {
        let x: Cell = (c as usize, (cfg.rows - 1) as usize);
        assert(cgrid(cfg, x));
        if in_some(gs, x) {
            let k = choose|k: int| 0 <= k < gs.len() && (#[trigger] gs[k].1.contains(x));
            assert(is_group(cfg, s, gs[k].0, gs[k].1));
            let i = choose|i: int| 0 <= i < gs[k].1.len() && gs[k].1[i] == x;
            assert(cvis(cfg, gs[k].1[i]));
        }
        assert(ccolor(cfg, cl, x) == ccolor(cfg, s, x));
        assert(in_grid(cfg, c, cfg.rows - 1));
    }
}

/// Any listing of a board's groups is the board's listing.
pub proof fn lemma_listing(cfg: GameConfig, s: Seq<PuyoColor>, d: Seq<GroupView>)
    requires
        is_decomposition(cfg, s, d),
    ensures
        is_decomposition(cfg, s, listing(cfg, s)),
        d == listing(cfg, s),
        equiv_groups(clearable(d), step_groups(cfg, s)),
        clear_groups(cfg, s, clearable(d)) == clear_groups(cfg, s, step_groups(cfg, s)),
        view_sig(clearable(d)) == view_sig(step_groups(cfg, s)),
{
    lemma_decomposition_unique(cfg, s, d, listing(cfg, s));
    lemma_equiv_clearable(d, listing(cfg, s));
    lemma_equiv_clear(cfg, s, clearable(d), step_groups(cfg, s));
}


/// Resolving chains keeps the board's shape, and leaves a settled board when
/// it starts from one (every step ends with gravity, which settles the board).
pub proof fn lemma_chain_settled(cfg: GameConfig, s: Seq<PuyoColor>, chain_num: int)
    requires
        grid_ok(cfg, s),
    ensures
        grid_ok(cfg, chain_outcome(cfg, s, chain_num).2),
        settled(cfg, s) ==> settled(cfg, chain_outcome(cfg, s, chain_num).2),
        step_groups(cfg, s).len() > 0 ==> settled(cfg, chain_outcome(cfg, s, chain_num).2),
    decreases colored_count(s),
{
    if step_groups(cfg, s).len() != 0 {
        let cleared = clear_groups(cfg, s, step_groups(cfg, s));
        let s2 = step_board(cfg, s);
        assert(grid_ok(cfg, cleared));
        lemma_gravity_settled(cfg, cleared);
        assert(grid_ok(cfg, s2));
        if colored_count(s2) < colored_count(s) {
            lemma_chain_settled(cfg, s2, chain_num + 1);
        }
    }
}

/// A board with no group to clear is left as it is by resolution: no chain,
/// no score.  With `Board::resolve_chains`, which ends on such a board,
/// resolving twice gives the same board as resolving once.
pub proof fn lemma_resolved_is_stable(cfg: GameConfig, s: Seq<PuyoColor>, chain_num: int)
    requires
        step_groups(cfg, s).len() == 0,
    ensures
        chain_outcome(cfg, s, chain_num) == (0nat, 0int, s),
{
}

} // verus!
