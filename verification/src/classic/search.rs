//! Chain override bookkeeping for the search: when some first move leads to
//! a longer chain than the evaluator's best move, that move is preferred.

use vstd::prelude::*;
use crate::classic::piece::Placement;

verus! {

/// Tracks the longest chain reachable from each first move, and the chain
/// length of the evaluator's current best move.
#[derive(Debug, Clone, Copy)]
pub struct ChainTracker {
    /// Whether chain override is in use.
    pub enabled: bool,
    /// The longest chain seen so far.
    pub best_chain_count: u32,
    /// The first move that led to it.
    pub best_chain_placement: Placement,
    /// The chain length of the evaluator's best move.
    pub eval_best_chain_count: u32,
}

impl ChainTracker {
    /// A tracker that has seen no chain yet.
    pub fn new(enabled: bool, default_placement: Placement) -> (t: Self)
        ensures
            t.enabled == enabled,
            t.best_chain_count == 0,
            t.best_chain_placement == default_placement,
            t.eval_best_chain_count == 0,
    {
        ChainTracker {
            enabled,
            best_chain_count: 0,
            best_chain_placement: default_placement,
            eval_best_chain_count: 0,
        }
    }

    /// Record a chain of `chain_count` reached from first move
    /// `first_placement`; it becomes the best when tracking is on and it is
    /// strictly longer than the best so far.
    pub fn update(&mut self, chain_count: u32, first_placement: Placement)
        ensures
            final(self).enabled == old(self).enabled,
            final(self).eval_best_chain_count == old(self).eval_best_chain_count,
            (final(self).best_chain_count, final(self).best_chain_placement) == if old(self).enabled
                && chain_count > old(self).best_chain_count {
                (chain_count, first_placement)
            } else {
                (old(self).best_chain_count, old(self).best_chain_placement)
            },
    {
        if self.enabled && chain_count > self.best_chain_count {
            self.best_chain_count = chain_count;
            self.best_chain_placement = first_placement;
        }
    }

    /// Record the chain length of the evaluator's new best move.
    pub fn set_eval_best(&mut self, chain_count: u32)
        ensures
            final(self).eval_best_chain_count == chain_count,
            final(self).enabled == old(self).enabled,
            final(self).best_chain_count == old(self).best_chain_count,
            final(self).best_chain_placement == old(self).best_chain_placement,
    {
        self.eval_best_chain_count = chain_count;
    }

    /// The move that overrides the evaluator's choice: the longest-chain move,
    /// when tracking is on and its chain beats the evaluator's best move.
    pub fn overriding_placement(&self) -> (p: Option<Placement>)
        ensures
            p == if self.enabled && self.best_chain_count > self.eval_best_chain_count {
                Some(self.best_chain_placement)
            } else {
                None::<Placement>
            },
    {
        if self.enabled && self.best_chain_count > self.eval_best_chain_count {
            Some(self.best_chain_placement)
        } else {
            None
        }
    }
}

} // verus!
