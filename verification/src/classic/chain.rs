//! Chain detection and resolution on the fixed-size board, with the details
//! of every step.

use vstd::prelude::*;
use crate::chain_model::{
    chain_outcome, colored_count, lemma_count_bound, lemma_step_groups_exact, pairwise_disjoint,
    step_board, step_groups, view_sig,
};
use crate::classic::board::{classic_config, Board, COLS, ROWS, VISIBLE_ROWS};
use crate::grid::cell_index;
use crate::groups::{
    adjacent, bfs_group, bfs_visit, ccolor, cidx, cvis, flood_inv, groups_view, is_group, same_cells,
    tree_ordered, visited_ok,
};
use crate::score::{lemma_step_score_bound, step_score, total_cleared};

pub use crate::board::{Group, PuyoColor};
pub use crate::config::MIN_GROUP_SIZE;

verus! {

/// Result of resolving all chains on a board, with the details of each step.
#[derive(Debug, Clone)]
pub struct ChainResult {
    pub chain_count: u32,
    pub score: u32,
    /// One entry per chain step, in order.
    pub steps: Vec<ChainStep>,
}

/// One chain step: the groups that cleared together.
#[derive(Debug, Clone)]
pub struct ChainStep {
    /// Chain number, from 1.
    pub chain_num: u32,
    /// The groups cleared in this step.
    pub groups: Vec<Group>,
    /// The step's score.
    pub score: u32,
}

/// The board after `k` chain steps.
pub open spec fn after_steps(s: Seq<PuyoColor>, k: nat) -> Seq<PuyoColor>
    decreases k,
{
    if k == 0 {
        s
    } else {
        step_board(classic_config(), after_steps(s, (k - 1) as nat))
    }
}

/// `step` is chain step number `k + 1` of resolving board `s`: its groups
/// are the clearing groups of the board after `k` steps (at least one, each
/// of at least `MIN_GROUP_SIZE` puyos), scored as chain `k + 1`.
pub open spec fn is_step_of(s: Seq<PuyoColor>, step: ChainStep, k: int) -> bool {
    let b = after_steps(s, k as nat);
    &&& step.chain_num == k + 1
    &&& step.score == step_score(k + 1, view_sig(step_groups(classic_config(), b)))
    &&& groups_view(step.groups@) == step_groups(classic_config(), b)
    &&& step.groups@.len() > 0
    &&& forall|j: int| 0 <= j < step.groups@.len() ==> (#[trigger] step.groups@[j]).cells@.len() >= MIN_GROUP_SIZE
}

/// Total score of a list of steps.
pub open spec fn steps_score(steps: Seq<ChainStep>) -> int
    decreases steps.len(),
{
    if steps.len() == 0 {
        0
    } else {
        steps_score(steps.drop_last()) + steps.last().score
    }
}

/// A visited map, column-major: entry `col * ROWS + row` is `v[col][row]`.
pub open spec fn flat_visited(v: [[bool; ROWS]; COLS]) -> Seq<bool> {
    Seq::new((COLS * ROWS) as nat, |i: int| v[i / (ROWS as int)][i % (ROWS as int)])
}

/// Breadth-first flood fill from `(start_col, start_row)` through same-colour
/// neighbours in the visible rows that are not marked in `visited`.  Returns
/// the cells found, the start first, and marks them in `visited`: they are
/// connected, and hold every unmarked same-colour neighbour of each of them.
/// The start must be a visible puyo not marked yet.  When the marked cells
/// form whole groups, the cells found are the start's whole group.
pub fn flood_fill(
    board: &Board,
    start_col: usize,
    start_row: usize,
    visited: &mut [[bool; ROWS]; COLS],
) -> (cells: Vec<(usize, usize)>)
    requires
        board.wf(),
        start_col < COLS,
        start_row < VISIBLE_ROWS,
        board@[cell_index(classic_config(), start_col as int, start_row as int)] != PuyoColor::Empty,
        !flat_visited(*old(visited))[cell_index(classic_config(), start_col as int, start_row as int)],
    ensures
        cells@[0] == (start_col, start_row),
        flood_inv(
            classic_config(),
            board@,
            board@[cell_index(classic_config(), start_col as int, start_row as int)],
            flat_visited(*old(visited)),
            flat_visited(*final(visited)),
            cells@,
        ),
        tree_ordered(cells@),
        forall|i: int, n: (usize, usize)|
            0 <= i < cells@.len() && cvis(classic_config(), n) && #[trigger] adjacent(cells@[i], n)
                && ccolor(classic_config(), board@, n) == board@[cell_index(
                classic_config(),
                start_col as int,
                start_row as int,
            )] && !flat_visited(*old(visited))[cidx(classic_config(), n)] ==> cells@.contains(n),
        cells@ == bfs_visit(classic_config(), board@, flat_visited(*old(visited)), (start_col, start_row)),
        visited_ok(classic_config(), board@, flat_visited(*old(visited))) ==> {
            &&& is_group(
                classic_config(),
                board@,
                board@[cell_index(classic_config(), start_col as int, start_row as int)],
                cells@,
            )
            &&& visited_ok(classic_config(), board@, flat_visited(*final(visited)))
            &&& cells@ == bfs_group(classic_config(), board@, (start_col, start_row))
        },
{
    let ghost v0 = flat_visited(*visited);
    let mut v: Vec<bool> = Vec::new();
    let mut i: usize = 0;
    while i < COLS * ROWS
        invariant
            i <= COLS * ROWS,
            v0 == flat_visited(*visited),
            v@ == v0.take(i as int),
        decreases COLS * ROWS - i,
    {
        v.push(visited[i / ROWS][i % ROWS]);
        assert(v@ =~= v0.take(i + 1));
        i += 1;
    }
    assert(v@ =~= v0);
    let cells = board.grid.flood_group(start_col, start_row, &mut v);
    let ghost vf = v@;
    let mut j: usize = 0;
    while j < COLS * ROWS
        invariant
            j <= COLS * ROWS,
            v@ == vf,
            vf.len() == COLS * ROWS,
            forall|k: int| 0 <= k < j ==> #[trigger] flat_visited(*visited)[k] == vf[k],
        decreases COLS * ROWS - j,
    {
        let ghost before = flat_visited(*visited);
        visited[j / ROWS][j % ROWS] = v[j];
        proof {
            assert forall|k: int| 0 <= k < j + 1 implies #[trigger] flat_visited(*visited)[k]
                == vf[k] by {
                if k < j {
                    assert(k / (ROWS as int) != (j as int) / (ROWS as int) || k % (ROWS as int) != (
                    j as int) % (ROWS as int));
                    assert(before[k] == vf[k]);
                }
            }
        }
        j += 1;
    }
    assert(flat_visited(*visited) =~= vf);
    cells
}

/// The connected groups of at least `MIN_GROUP_SIZE` puyos in the visible
/// rows, in scan order (column-major): each returned group is a connected
/// same-colour group of at least four puyos, no two share a cell, and every
/// such group of the board is returned.
pub fn find_groups(board: &Board) -> (groups: Vec<Group>)
    requires
        board.wf(),
    ensures
        groups_view(groups@) == step_groups(classic_config(), board@),
        forall|k: int|
            0 <= k < groups@.len() ==> is_group(
                classic_config(),
                board@,
                (#[trigger] groups@[k]).color,
                groups@[k].cells@,
            ) && groups@[k].cells@.len() >= MIN_GROUP_SIZE,
        pairwise_disjoint(groups_view(groups@)),
        forall|color: PuyoColor, cells: Seq<(usize, usize)>|
            #[trigger] is_group(classic_config(), board@, color, cells) && cells.len() >= MIN_GROUP_SIZE
                ==> exists|k: int|
                0 <= k < groups@.len() && (#[trigger] groups@[k]).color == color && same_cells(
                    groups@[k].cells@,
                    cells,
                ),
{
    let groups = board.find_clearable_groups();
    proof {
        let cfg = classic_config();
        lemma_step_groups_exact(cfg, board@);
        let gv = groups_view(groups@);
        assert forall|k: int| 0 <= k < groups@.len() implies is_group(
            cfg,
            board@,
            (#[trigger] groups@[k]).color,
            groups@[k].cells@,
        ) && groups@[k].cells@.len() >= MIN_GROUP_SIZE by {
            assert(gv[k] == (groups@[k].color, groups@[k].cells@));
        }
        assert forall|color: PuyoColor, cells: Seq<(usize, usize)>|
            #[trigger] is_group(cfg, board@, color, cells) && cells.len() >= MIN_GROUP_SIZE implies exists|
            k: int,
        | 0 <= k < groups@.len() && (#[trigger] groups@[k]).color == color && same_cells(
            groups@[k].cells@,
            cells,
        ) by {
            let k = choose|k: int|
                0 <= k < gv.len() && (#[trigger] gv[k]).0 == color && same_cells(gv[k].1, cells);
            assert(gv[k] == (groups@[k].color, groups@[k].cells@));
        }
    }
    groups
}

/// One chain step: clear every group of at least `MIN_GROUP_SIZE` puyos,
/// score them as chain `chain_num`, and apply gravity.  `None`, with the
/// board unchanged, when no group clears.
pub fn resolve_one_step(board: &mut Board, chain_num: u32) -> (res: Option<ChainStep>)
    requires
        old(board).wf(),
    ensures
        final(board).wf(),
        res is None <==> step_groups(classic_config(), old(board)@).len() == 0,
        res is None ==> final(board)@ == old(board)@,
        forall|k: int|
            0 <= k < step_groups(classic_config(), old(board)@).len() ==> (#[trigger] step_groups(
                classic_config(),
                old(board)@,
            )[k]).1.len() >= 4,
        res matches Some(step) ==> {
            &&& step.chain_num == chain_num
            &&& step.score == step_score(
                chain_num as int,
                view_sig(step_groups(classic_config(), old(board)@)),
            )
            &&& groups_view(step.groups@) == step_groups(classic_config(), old(board)@)
            &&& final(board)@ == step_board(classic_config(), old(board)@)
            &&& colored_count(final(board)@) + total_cleared(
                view_sig(step_groups(classic_config(), old(board)@)),
            ) == colored_count(old(board)@)
        },
{
    proof {
        crate::classic::board::lemma_few_puyos(board@);
    }
    match board.grid.resolve_one_step(chain_num) {
        Some((score, groups)) => Some(ChainStep { chain_num, groups, score }),
        None => None,
    }
}

/// Resolve every chain, step by step, until no group clears.  Returns the
/// number of chains, the total score and the steps.
pub fn resolve_chains(board: &mut Board) -> (res: ChainResult)
    requires
        old(board).wf(),
    ensures
        final(board).wf(),
        res.chain_count == chain_outcome(classic_config(), old(board)@, 1).0,
        res.score == chain_outcome(classic_config(), old(board)@, 1).1,
        final(board)@ == chain_outcome(classic_config(), old(board)@, 1).2,
        step_groups(classic_config(), final(board)@).len() == 0,
        res.steps@.len() == res.chain_count,
        res.score == steps_score(res.steps@),
        forall|k: int| 0 <= k < res.steps@.len() ==> is_step_of(old(board)@, #[trigger] res.steps@[k], k),
{
    let ghost cfg = classic_config();
    let ghost orig = board@;
    let ghost n0 = colored_count(orig);
    proof {
        lemma_count_bound(orig);
    }
    let mut steps: Vec<ChainStep> = Vec::new();
    let mut score: u32 = 0;
    let mut chain_num: u32 = 1;
    let mut done = false;
    while !done
        invariant
            board.wf(),
            cfg == classic_config(),
            n0 == colored_count(orig),
            n0 <= 24,
            colored_count(board@) <= n0,
            chain_num == steps@.len() + 1,
            4 * steps@.len() <= n0 - colored_count(board@),
            score <= 6840 * (n0 - colored_count(board@)) + 25 * (n0 - colored_count(board@)) * (n0
                - colored_count(board@)),
            score == steps_score(steps@),
            done ==> step_groups(cfg, board@).len() == 0,
            board@ == after_steps(orig, steps@.len()),
            forall|k: int| 0 <= k < steps@.len() ==> is_step_of(orig, #[trigger] steps@[k], k),
            chain_outcome(cfg, orig, 1) == ({
                let rest = chain_outcome(cfg, board@, chain_num as int);
                ((steps@.len() + rest.0) as nat, score + rest.1, rest.2)
            }),
        decreases colored_count(board@) + if done {
            0int
        } else {
            1int
        },
    {
        let ghost before = board@;
        let ghost before_steps = steps@;
        match resolve_one_step(board, chain_num) {
            Some(step) => {
                proof {
                    let sig = view_sig(step_groups(cfg, before));
                    let t = total_cleared(sig);
                    let m = n0 - colored_count(before);
                    assert forall|k: int| 0 <= k < sig.len() implies (#[trigger] sig[k]).1 >= 4 by {
                        assert(step_groups(cfg, before)[k].1.len() >= 4);
                    }
                    lemma_step_score_bound(chain_num as int, sig);
                    assert(t >= 4);
                    assert(score + step.score <= 6840 * (m + t) + 25 * (m + t) * (m + t))
                        by (nonlinear_arith)
                        requires
                            score <= 6840 * m + 25 * m * m,
                            step.score <= 6840 * t + 25 * t * t,
                            m >= 0,
                            t >= 0,
                    ;
                    assert(6840 * (m + t) + 25 * (m + t) * (m + t) <= 6840 * 24 + 25 * 24 * 24)
                        by (nonlinear_arith)
                        requires
                            0 <= m + t <= 24,
                    ;
                }
                score += step.score;
                steps.push(step);
                chain_num += 1;
                proof {
                    let gv = groups_view(step.groups@);
                    assert(gv.len() == step.groups@.len());
                    assert forall|j: int| 0 <= j < step.groups@.len() implies (
                    #[trigger] step.groups@[j]).cells@.len() >= MIN_GROUP_SIZE by {
                        assert(gv[j] == (step.groups@[j].color, step.groups@[j].cells@));
                        assert(step_groups(cfg, before)[j].1.len() >= 4);
                    }
                }
                proof {
                    assert(steps@.drop_last() =~= before_steps);
                    assert forall|k: int| 0 <= k < steps@.len() implies is_step_of(
                        orig,
                        #[trigger] steps@[k],
                        k,
                    ) by {
                        if k < before_steps.len() {
                            assert(steps@[k] == before_steps[k]);
                        }
                    }
                }
            },
            None => {
                done = true;
            },
        }
    }
    let chain_count = steps.len() as u32;
    ChainResult { chain_count, score, steps }
}

} // verus!
