//! The integer core of the simulation evaluator: virtual pieces of two
//! same-coloured puyos are dropped on every legal placement, and the chain
//! scores they give (or a penalty when the game ends) are summed and
//! counted.  Their mean, a float, is the evaluator's estimate.

use vstd::prelude::*;
use crate::board::{Board, PuyoColor};
use crate::chain_model::{chain_fits, chain_outcome, lemma_outcome_score_per_chain};
use crate::config::GameConfig;
use crate::grid::column_height;
use crate::piece::{Piece, Placement};
use crate::placement::{
    enumerate_placements, enumerate_spec, lemma_enumerate_len, lemma_twin_listed_placeable,
    place_ok, place_spec, simulate_placement,
};

verus! {

/// Score of a virtual placement that ends the game.
pub const GAME_OVER_SCORE: i64 = -1000000;

/// The piece of two puyos of colour `c`.
pub open spec fn twin(c: PuyoColor) -> Piece {
    Piece { axis_color: c, satellite_color: c }
}

/// Score of placing `piece` at `p`: the chain score, or `GAME_OVER_SCORE`
/// when the board after the chains is game over.
pub open spec fn pattern_score(cfg: GameConfig, s: Seq<PuyoColor>, piece: Piece, p: Placement) -> int {
    let out = chain_outcome(cfg, place_spec(cfg, s, piece, p), 1);
    if column_height(cfg, out.2, cfg.spec_spawn_col()) >= cfg.spec_visible_rows() {
        GAME_OVER_SCORE as int
    } else {
        out.1
    }
}

/// The term of a virtual placement is the chain score of the placed board
/// (the score `Board::resolve_chains` reports for it), which is at least 40
/// for each chain; it is the game-over penalty instead when the resolved
/// board is game over.
pub proof fn lemma_pattern_score_is_chain_score(cfg: GameConfig, s: Seq<PuyoColor>, piece: Piece, p: Placement)
    ensures
        ({
            let out = chain_outcome(cfg, place_spec(cfg, s, piece, p), 1);
            let over = column_height(cfg, out.2, cfg.spec_spawn_col()) >= cfg.spec_visible_rows();
            &&& over ==> pattern_score(cfg, s, piece, p) == GAME_OVER_SCORE
            &&& !over ==> pattern_score(cfg, s, piece, p) == out.1
            &&& !over ==> pattern_score(cfg, s, piece, p) >= 40 * out.0
        }),
{
    lemma_outcome_score_per_chain(cfg, place_spec(cfg, s, piece, p), 1);
}

/// Sum of the scores of placing `piece` at each of `ps`.
pub open spec fn placements_total(cfg: GameConfig, s: Seq<PuyoColor>, piece: Piece, ps: Seq<Placement>) -> int
    decreases ps.len(),
{
    if ps.len() == 0 {
        0
    } else {
        placements_total(cfg, s, piece, ps.drop_last()) + pattern_score(cfg, s, piece, ps.last())
    }
}

/// Sum of the scores of every virtual placement, colour by colour.
pub open spec fn colors_total(cfg: GameConfig, s: Seq<PuyoColor>, colors: Seq<PuyoColor>) -> int
    decreases colors.len(),
{
    if colors.len() == 0 {
        0
    } else {
        let c = colors.last();
        colors_total(cfg, s, colors.drop_last()) + placements_total(
            cfg,
            s,
            twin(c),
            enumerate_spec(cfg, s, twin(c)),
        )
    }
}

/// Number of virtual placements over all the colours.
pub open spec fn colors_count(cfg: GameConfig, s: Seq<PuyoColor>, colors: Seq<PuyoColor>) -> nat
    decreases colors.len(),
{
    if colors.len() == 0 {
        0
    } else {
        colors_count(cfg, s, colors.drop_last()) + enumerate_spec(
            cfg,
            s,
            twin(colors.last()),
        ).len()
    }
}

/// Every virtual placement of `colors` resolves with a chain score that fits
/// in a `u32`.
pub open spec fn twins_fit(cfg: GameConfig, s: Seq<PuyoColor>, colors: Seq<PuyoColor>) -> bool {
    forall|i: int, k: int|
        0 <= i < colors.len() && 0 <= k < enumerate_spec(cfg, s, twin(colors[i])).len() ==> chain_fits(
            cfg,
            place_spec(cfg, s, twin(colors[i]), #[trigger] enumerate_spec(cfg, s, twin(colors[i]))[k]),
        )
}

/// The sum and the number of the virtual placement scores of `colors`.
/// Every virtual placement can be carried out (see
/// `placement::lemma_twin_listed_placeable`).
pub fn pattern_terms(board: &Board, colors: &[PuyoColor]) -> (res: (i128, u128))
    requires
        board.wf(),
        colors@.len() <= 4,
        twins_fit(board.config(), board@, colors@),
    ensures
        res.0 == colors_total(board.config(), board@, colors@),
        res.1 == colors_count(board.config(), board@, colors@),
{
    let ghost cfg = board.config();
    let ghost s = board@;
    let mut sum: i128 = 0;
    let mut count: u128 = 0;
    let mut ci: usize = 0;
    while ci < colors.len()
        invariant
            board.wf(),
            cfg == board.config(),
            s == board@,
            colors@.len() <= 4,
            twins_fit(cfg, s, colors@),
            ci <= colors@.len(),
            sum == colors_total(cfg, s, colors@.take(ci as int)),
            count == colors_count(cfg, s, colors@.take(ci as int)),
            count <= ci * usize::MAX,
            -1000000 * count <= sum <= 4294967295 * count,
        decreases colors.len() - ci,
    {
        let color = colors[ci];
        let piece = Piece::new(color, color);
        let placements = enumerate_placements(board, &piece);
        let ghost ps = placements@;
        proof {
            lemma_twin_listed_placeable(cfg, s, piece);
            assert(colors@.take(ci + 1).drop_last() =~= colors@.take(ci as int));
            assert(ps.len() == placements.len());
        }
        let mut pi: usize = 0;
        while pi < placements.len()
            invariant
                board.wf(),
                cfg == board.config(),
                s == board@,
                ci < colors@.len(),
                colors@.len() <= 4,
                twins_fit(cfg, s, colors@),
                piece == twin(colors@[ci as int]),
                ps == placements@,
                ps == enumerate_spec(cfg, s, piece),
                ps.len() <= usize::MAX,
                forall|k: int| 0 <= k < ps.len() ==> place_ok(cfg, s, piece, #[trigger] ps[k]),
                pi <= ps.len(),
                sum == colors_total(cfg, s, colors@.take(ci as int)) + placements_total(
                    cfg,
                    s,
                    piece,
                    ps.take(pi as int),
                ),
                count == colors_count(cfg, s, colors@.take(ci as int)) + pi,
                count <= ci * usize::MAX + pi,
                -1000000 * count <= sum <= 4294967295 * count,
            decreases placements.len() - pi,
        {
            let p = placements[pi];
            proof {
                assert(place_ok(cfg, s, piece, ps[pi as int]));
                assert(ps.take(pi + 1).drop_last() =~= ps.take(pi as int));
                assert(chain_fits(cfg, place_spec(cfg, s, piece, ps[pi as int])));
            }
            let (sim, result) = simulate_placement(board, &piece, &p);
            let score: i128 = if sim.is_game_over() {
                GAME_OVER_SCORE as i128
            } else {
                result.score as i128
            };
            sum = sum + score;
            count = count + 1;
            pi += 1;
        }
        proof {
            assert(ps.take(pi as int) =~= ps);
        }
        ci += 1;
    }
    proof {
        assert(colors@.take(ci as int) =~= colors@);
    }
    (sum, count)
}

/// Simulation-based evaluator: drops virtual puyos to estimate the expected
/// chain score of a board.
pub struct SimulationEvaluator;

impl SimulationEvaluator {
    /// The sum and the number of the virtual placement scores on `board`,
    /// with the board's colours in play; the estimate is their mean, or the
    /// game-over score when there is no virtual placement.
    pub fn expected_score_terms(&self, board: &Board) -> (res: (i128, u128))
        requires
            board.wf(),
            twins_fit(
                board.config(),
                board@,
                crate::board::ALL_COLOR_VARIANTS@.subrange(0, board.config().num_colors as int),
            ),
        ensures
            res.0 == colors_total(
                board.config(),
                board@,
                crate::board::ALL_COLOR_VARIANTS@.subrange(0, board.config().num_colors as int),
            ),
            res.1 == colors_count(
                board.config(),
                board@,
                crate::board::ALL_COLOR_VARIANTS@.subrange(0, board.config().num_colors as int),
            ),
    {
        let colors = PuyoColor::active_colors(board.config().num_colors);
        pattern_terms(board, colors)
    }
}

} // verus!
