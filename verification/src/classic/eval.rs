//! The integer core of the simulation evaluator on the fixed-size board,
//! which drops virtual pieces of each of the four colours.

use vstd::prelude::*;
use crate::board::ALL_COLOR_VARIANTS;
use crate::classic::board::{classic_config, Board};
use crate::eval::{colors_count, colors_total, pattern_terms, twin, twins_fit};
use crate::placement::{enumerate_spec, place_spec};

verus! {

/// Simulation-based evaluator on the fixed-size board.
pub struct SimulationEvaluator;

impl SimulationEvaluator {
    /// The sum and the number of the virtual placement scores on `board`,
    /// over Red, Green, Blue and Yellow; the estimate is their mean, or the
    /// game-over score when there is no virtual placement.
    pub fn expected_score_terms(&self, board: &Board) -> (res: (i128, u128))
        requires
            board.wf(),
        ensures
            res.0 == colors_total(classic_config(), board@, ALL_COLOR_VARIANTS@),
            res.1 == colors_count(classic_config(), board@, ALL_COLOR_VARIANTS@),
    {
        let colors: &[crate::board::PuyoColor] = &ALL_COLOR_VARIANTS;
        proof {
            let cfg = classic_config();
            let s = board@;
            let cs = ALL_COLOR_VARIANTS@;
            assert forall|i: int, k: int|
                0 <= i < cs.len() && 0 <= k < enumerate_spec(cfg, s, twin(cs[i])).len() implies crate::chain_model::chain_fits(
                cfg,
                place_spec(cfg, s, twin(cs[i]), #[trigger] enumerate_spec(cfg, s, twin(cs[i]))[k]),
            ) by {
                let p = enumerate_spec(cfg, s, twin(cs[i]))[k];
                let placed = place_spec(cfg, s, twin(cs[i]), p);
                crate::placement::lemma_twin_listed_placeable(cfg, s, twin(cs[i]));
                assert(crate::placement::place_ok(cfg, s, twin(cs[i]), p));
                crate::placement::lemma_place_len(cfg, s, twin(cs[i]), p);
                crate::classic::board::lemma_few_puyos(placed);
            }
            assert(twins_fit(cfg, s, cs));
        }
        pattern_terms(&board.grid, colors)
    }
}

} // verus!
