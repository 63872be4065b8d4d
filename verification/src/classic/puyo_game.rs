//! The fixed-size game seen as a turn-based game, and the hashes that seed
//! the pieces drawn during search.

use vstd::prelude::*;
use crate::board::{ChainResult, PuyoColor};
use crate::chain_model::chain_outcome;
use crate::classic::board::{classic_config, Board, COLS, NUM_COLORS, ROWS};
use crate::classic::config::{CONTEXT_TENSOR_SIZE, NUM_ACTIONS, NUM_CHANNELS};
use crate::classic::piece::{Piece, Placement};
use crate::classic::placement::{
    compute_valid_mask, core_list, enumerate_placements, index_to_placement, placement_to_index,
    simulate_placement,
};
use crate::classic::state::PuyoState;
use crate::hash_util::{spec_splitmix64, splitmix64};
use crate::placement::{enumerate_spec, place_ok, place_spec, spec_index_to_placement, spec_placement_index};
use crate::rand::{piece_from_seed, random_piece, spec_piece_from_seed};

verus! {

/// The fixed-size puyo game.
#[derive(Clone, Copy)]
pub struct PuyoGame;

impl PuyoGame {
    /// Size of the action space.
    pub fn num_actions() -> (n: usize)
        ensures
            n == NUM_ACTIONS,
    {
        NUM_ACTIONS
    }

    /// Shape of the board tensor: `(channels, rows, cols)`.
    pub fn board_tensor_shape() -> (shape: (usize, usize, usize))
        ensures
            shape == (NUM_CHANNELS, ROWS, COLS),
    {
        (NUM_CHANNELS, ROWS, COLS)
    }

    /// Size of the context tensor.
    pub fn context_tensor_size() -> (n: usize)
        ensures
            n == CONTEXT_TENSOR_SIZE,
    {
        CONTEXT_TENSOR_SIZE
    }

    /// The game is over in this state.
    pub fn is_terminal(state: &PuyoState) -> (b: bool)
        requires
            state.wf(),
        ensures
            b == (crate::grid::column_height(
                classic_config(),
                state.board@,
                crate::classic::board::SPAWN_COL as int,
            ) >= crate::classic::board::VISIBLE_ROWS),
    {
        state.board.is_game_over()
    }

    /// The legal placements of the current piece.
    pub fn legal_actions(state: &PuyoState) -> (actions: Vec<Placement>)
        requires
            state.wf(),
        ensures
            core_list(actions@) == enumerate_spec(classic_config(), state.board@, state.current),
    {
        enumerate_placements(&state.board, &state.current)
    }

    /// The valid-action mask of the current piece.
    pub fn valid_action_mask(state: &PuyoState) -> (mask: Vec<bool>)
        requires
            state.wf(),
        ensures
            mask@.len() == NUM_ACTIONS,
            forall|i: int|
                0 <= i < NUM_ACTIONS ==> mask@[i] == exists|k: int|
                    0 <= k < enumerate_spec(classic_config(), state.board@, state.current).len()
                        && spec_placement_index(
                        #[trigger] enumerate_spec(classic_config(), state.board@, state.current)[k],
                    ) == i,
    {
        let m = compute_valid_mask(&state.board, &state.current);
        let mut v: Vec<bool> = Vec::new();
        let mut i: usize = 0;
        while i < NUM_ACTIONS
            invariant
                i <= NUM_ACTIONS,
                v@ == m@.take(i as int),
            decreases NUM_ACTIONS - i,
        {
            v.push(m[i]);
            assert(v@ =~= m@.take(i + 1));
            i += 1;
        }
        assert(m@.take(i as int) =~= m@);
        v
    }

    /// The action index of a placement.
    pub fn action_to_index(action: &Placement) -> (i: usize)
        requires
            action.col * 4 + 3 <= usize::MAX,
        ensures
            i == spec_placement_index(action.spec_core()),
    {
        placement_to_index(action)
    }

    /// The placement of an action index, which must be below `NUM_ACTIONS`.
    pub fn index_to_action(index: usize) -> (p: Placement)
        requires
            index < NUM_ACTIONS,
        ensures
            p.spec_core() == spec_index_to_placement(index as int),
    {
        index_to_placement(index)
    }

    /// Apply a placement of the current piece: place it, resolve the chains,
    /// and shift the queue.
    pub fn apply_action(state: &PuyoState, action: &Placement) -> (res: (PuyoState, ChainResult))
        requires
            state.wf(),
            place_ok(classic_config(), state.board@, state.current, action.spec_core()),
        ensures
            res.0.wf(),
            res.0.board@ == chain_outcome(
                classic_config(),
                place_spec(classic_config(), state.board@, state.current, action.spec_core()),
                1,
            ).2,
            res.1.chain_count == chain_outcome(
                classic_config(),
                place_spec(classic_config(), state.board@, state.current, action.spec_core()),
                1,
            ).0,
            res.1.score == chain_outcome(
                classic_config(),
                place_spec(classic_config(), state.board@, state.current, action.spec_core()),
                1,
            ).1,
            res.0.current == state.next,
            res.0.next == state.next_next,
            res.0.next_next == state.next_next,
    {
        let (new_board, chain_result) = simulate_placement(&state.board, &state.current, action);
        let new_state = PuyoState {
            board: new_board,
            current: state.next,
            next: state.next_next,
            next_next: state.next_next,
        };
        (new_state, chain_result)
    }

    /// Draw a new piece after next from the clock seed.
    pub fn advance_turn(state: &mut PuyoState)
        requires
            old(state).wf(),
        ensures
            final(state).wf(),
            final(state).board@ == old(state).board@,
            final(state).current == old(state).current,
            final(state).next == old(state).next,
            exists|t: u64|
                final(state).next_next == spec_piece_from_seed(#[trigger] spec_splitmix64(t), 3),
    {
        state.next_next = random_piece();
    }
}

/// FNV-1a offset basis.
pub const FNV_OFFSET: u64 = 0xcbf29ce484222325;

/// FNV-1a prime.
pub const FNV_PRIME: u64 = 0x00000100000001B3;

/// FNV-1a hash of the colour numbers of `cells`, in order.
pub open spec fn fnv_hash(cells: Seq<PuyoColor>) -> u64
    decreases cells.len(),
{
    if cells.len() == 0 {
        FNV_OFFSET
    } else {
        (fnv_hash(cells.drop_last()) ^ (cells.last().code() as u64)).wrapping_mul(FNV_PRIME)
    }
}

/// FNV-1a hash of the board, over the cells in column-major order.
pub fn board_hash(board: &Board) -> (h: u64)
    requires
        board.wf(),
    ensures
        h == fnv_hash(board@),
{
    let mut h: u64 = FNV_OFFSET;
    let mut col: usize = 0;
    while col < COLS
        invariant
            board.wf(),
            col <= COLS,
            h == fnv_hash(board@.take((col * ROWS) as int)),
        decreases COLS - col,
    {
        let mut row: usize = 0;
        while row < ROWS
            invariant
                board.wf(),
                col < COLS,
                row <= ROWS,
                h == fnv_hash(board@.take((col * ROWS + row) as int)),
            decreases ROWS - row,
        {
            let c = board.get(col, row);
            let ghost i = (col * ROWS + row) as int;
            proof {
                assert(board@.take(i + 1).drop_last() =~= board@.take(i));
                assert(board@.take(i + 1).last() == board@[i]);
            }
            h ^= c.to_u8() as u64;
            h = h.wrapping_mul(FNV_PRIME);
            row += 1;
        }
        col += 1;
    }
    assert(board@.take((COLS * ROWS) as int) =~= board@);
    h
}

/// The seed that `sample_piece` mixes from its three inputs.
pub open spec fn seed_mix(seed1: u64, seed2: u64, seed3: u64) -> u64 {
    seed1.wrapping_mul(6364136223846793005u64).wrapping_add(seed2).wrapping_add(1u64).wrapping_add(
        seed3.wrapping_mul(0x9e3779b97f4a7c15u64),
    )
}

/// A piece drawn deterministically from three seeds (a node id, an action
/// and a board hash): the same seeds always give the same piece.
pub fn sample_piece(seed1: u64, seed2: u64, seed3: u64) -> (p: Piece)
    ensures
        p == spec_piece_from_seed(spec_splitmix64(seed_mix(seed1, seed2, seed3)), NUM_COLORS as u64),
        1 <= p.axis_color.code() <= NUM_COLORS,
        1 <= p.satellite_color.code() <= NUM_COLORS,
{
    let x = seed1.wrapping_mul(6364136223846793005).wrapping_add(seed2).wrapping_add(1).wrapping_add(
        seed3.wrapping_mul(0x9e3779b97f4a7c15),
    );
    let x = splitmix64(x);
    piece_from_seed(x, NUM_COLORS)
}

} // verus!
