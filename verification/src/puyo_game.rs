//! The puyo game seen as a turn-based game: actions are placements, indexed
//! `col * 4 + orientation`, on the default configuration.

use vstd::prelude::*;
use crate::board::ChainResult;
use crate::chain_model::{chain_fits, chain_outcome};
use crate::config::GameConfig;
use crate::hash_util::spec_splitmix64;
use crate::piece::Placement;
use crate::placement::{
    compute_valid_mask, enumerate_placements, enumerate_spec, index_to_placement, place_ok,
    place_spec, placement_to_index, simulate_placement, spec_index_to_placement,
    spec_placement_index,
};
use crate::rand::{piece_from_seed, spec_piece_from_seed};
use crate::hash_util::time_seed;
use crate::state::PuyoState;

verus! {

/// The puyo game on the default configuration (3 columns, 8 rows, 3 colours).
#[derive(Clone, Copy)]
pub struct PuyoGame;

/// The default configuration.
pub open spec fn default_config() -> GameConfig {
    GameConfig { cols: 3, rows: 8, num_colors: 3 }
}

impl PuyoGame {
    fn config() -> (c: GameConfig)
        ensures
            c == default_config(),
    {
        GameConfig::default()
    }

    /// Size of the action space: `cols * 4`.
    pub fn num_actions() -> (n: usize)
        ensures
            n == default_config().spec_num_actions(),
    {
        Self::config().num_actions()
    }

    /// Shape of the board tensor: `(channels, rows, cols)`.
    pub fn board_tensor_shape() -> (shape: (usize, usize, usize))
        ensures
            shape.0 == default_config().spec_num_channels(),
            shape.1 == default_config().rows,
            shape.2 == default_config().cols,
    {
        let gc = Self::config();
        (gc.num_channels(), gc.rows, gc.cols)
    }

    /// Size of the context tensor (the piece encoding).
    pub fn context_tensor_size() -> (n: usize)
        ensures
            n == default_config().spec_piece_tensor_size(),
    {
        let gc = Self::config();
        assert(gc.num_colors == 3);
        assert(3 * 2 * gc.num_colors == 18);
        gc.context_tensor_size()
    }

    /// The game is over in this state.
    pub fn is_terminal(state: &PuyoState) -> (b: bool)
        requires
            state.wf(),
        ensures
            b == state.board.spec_is_game_over(),
    {
        state.board.is_game_over()
    }

    /// The legal placements of the current piece.
    pub fn legal_actions(state: &PuyoState) -> (actions: Vec<Placement>)
        requires
            state.wf(),
        ensures
            actions@ == enumerate_spec(state.board.config(), state.board@, state.current),
    {
        enumerate_placements(&state.board, &state.current)
    }

    /// The valid-action mask of the current piece: entry `i` is true when a
    /// legal placement has index `i`.
    pub fn valid_action_mask(state: &PuyoState) -> (mask: Vec<bool>)
        requires
            state.wf(),
            state.board.config().cols * 4 <= usize::MAX,
        ensures
            mask@.len() == state.board.config().spec_num_actions(),
            forall|i: int|
                0 <= i < mask@.len() ==> mask@[i] == exists|k: int|
                    0 <= k < enumerate_spec(state.board.config(), state.board@, state.current).len()
                        && spec_placement_index(
                        #[trigger] enumerate_spec(
                            state.board.config(),
                            state.board@,
                            state.current,
                        )[k],
                    ) == i,
    {
        compute_valid_mask(&state.board, &state.current)
    }

    /// The action index of a placement.
    pub fn action_to_index(action: &Placement) -> (i: usize)
        requires
            action.col * 4 + 3 <= usize::MAX,
        ensures
            i == spec_placement_index(*action),
    {
        placement_to_index(action)
    }

    /// The placement of an action index, which must be below `num_actions()`.
    pub fn index_to_action(index: usize) -> (p: Placement)
        requires
            index < default_config().spec_num_actions(),
        ensures
            p == spec_index_to_placement(index as int),
    {
        let gc = Self::config();
        index_to_placement(index, gc.cols)
    }

    /// Apply a placement of the current piece: place it, resolve the chains,
    /// and shift the queue (the next piece becomes current; the piece after it
    /// stays in both later slots until `advance_turn` draws a new one).
    pub fn apply_action(state: &PuyoState, action: &Placement) -> (res: (PuyoState, ChainResult))
        requires
            state.wf(),
            place_ok(state.board.config(), state.board@, state.current, *action),
            chain_fits(
                state.board.config(),
                place_spec(state.board.config(), state.board@, state.current, *action),
            ),
        ensures
            res.0.wf(),
            res.0.board.config() == state.board.config(),
            res.0.board@ == chain_outcome(
                state.board.config(),
                place_spec(state.board.config(), state.board@, state.current, *action),
                1,
            ).2,
            res.1.chain_count == chain_outcome(
                state.board.config(),
                place_spec(state.board.config(), state.board@, state.current, *action),
                1,
            ).0,
            res.1.score == chain_outcome(
                state.board.config(),
                place_spec(state.board.config(), state.board@, state.current, *action),
                1,
            ).1,
            res.0.current == state.next,
            res.0.next == state.next_next,
            res.0.next_next == state.next_next,
    {
        let (new_board, chain_result) = simulate_placement(&state.board, &state.current, action);
        let new_state = PuyoState {
            board: new_board,
            current: state.next,
            next: state.next_next,
            next_next: state.next_next,
        };
        (new_state, chain_result)
    }

    /// Draw a new piece after next from the clock seed, with the board's
    /// number of colours.
    pub fn advance_turn(state: &mut PuyoState)
        requires
            old(state).wf(),
        ensures
            final(state).board.config() == old(state).board.config(),
            final(state).board@ == old(state).board@,
            final(state).current == old(state).current,
            final(state).next == old(state).next,
            exists|t: u64|
                final(state).next_next == spec_piece_from_seed(
                    #[trigger] spec_splitmix64(t),
                    old(state).board.config().num_colors as u64,
                ),
    {
        let num_colors = state.board.config().num_colors;
        let seed = time_seed();
        state.next_next = piece_from_seed(seed, num_colors);
    }
}

} // verus!
