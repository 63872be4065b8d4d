//! Placing pieces on the fixed-size board, and the legal placements.

use vstd::prelude::*;
use crate::board::ChainResult;
use crate::chain_model::chain_outcome;
use crate::classic::board::{classic_config, Board};
use crate::classic::piece::{Piece, Placement};
use crate::placement::{enumerate_spec, place_ok, place_spec, spec_index_to_placement, spec_placement_index};

pub use crate::classic::config::NUM_ACTIONS;

verus! {

/// The placements as placements of the configurable game.
pub open spec fn core_list(ps: Seq<Placement>) -> Seq<crate::piece::Placement> {
    ps.map_values(|p: Placement| p.spec_core())
}

/// Place a piece on a copy of the board and resolve every chain.  Returns
/// the resulting board and the chain result; the board itself is unchanged.
pub fn simulate_placement(board: &Board, piece: &Piece, placement: &Placement) -> (res: (
    Board,
    ChainResult,
))
    requires
        board.wf(),
        place_ok(classic_config(), board@, *piece, placement.spec_core()),
    ensures
        res.0.wf(),
        res.0@ == chain_outcome(
            classic_config(),
            place_spec(classic_config(), board@, *piece, placement.spec_core()),
            1,
        ).2,
        res.1.chain_count == chain_outcome(
            classic_config(),
            place_spec(classic_config(), board@, *piece, placement.spec_core()),
            1,
        ).0,
        res.1.score == chain_outcome(
            classic_config(),
            place_spec(classic_config(), board@, *piece, placement.spec_core()),
            1,
        ).1,
{
    proof {
        let placed = place_spec(classic_config(), board@, *piece, placement.spec_core());
        crate::placement::lemma_place_len(classic_config(), board@, *piece, placement.spec_core());
        crate::classic::board::lemma_few_puyos(placed);
    }
    let (grid, result) = crate::placement::simulate_placement(&board.grid, piece, &placement.to_core());
    (Board { grid }, result)
}

/// All legal placements of `piece`: North by column, then South, East and
/// West; with both puyos of one colour, only the first placement of each
/// shape.
pub fn enumerate_placements(board: &Board, piece: &Piece) -> (res: Vec<Placement>)
    requires
        board.wf(),
    ensures
        core_list(res@) == enumerate_spec(classic_config(), board@, *piece),
{
    let core = crate::placement::enumerate_placements(&board.grid, piece);
    let mut res: Vec<Placement> = Vec::new();
    let mut i: usize = 0;
    while i < core.len()
        invariant
            i <= core@.len(),
            core_list(res@) == core@.take(i as int),
        decreases core.len() - i,
    {
        let p = Placement::from_core(&core[i]);
        let ghost before = res@;
        res.push(p);
        proof {
            assert(core_list(res@) =~= core_list(before).push(p.spec_core()));
            assert(core@.take(i + 1) =~= core@.take(i as int).push(core@[i as int]));
        }
        i += 1;
    }
    assert(core@.take(i as int) =~= core@);
    res
}

/// Convert a placement to its action index, `col * 4 + orientation.as_u8()`.
pub fn placement_to_index(p: &Placement) -> (i: usize)
    requires
        p.col * 4 + 3 <= usize::MAX,
    ensures
        i == spec_placement_index(p.spec_core()),
{
    p.col * 4 + p.orientation.as_u8() as usize
}

/// Convert an action index back to a placement; the index must be below
/// `NUM_ACTIONS`.
pub fn index_to_placement(index: usize) -> (p: Placement)
    requires
        index < NUM_ACTIONS,
    ensures
        p.spec_core() == spec_index_to_placement(index as int),
{
    let p = crate::placement::index_to_placement(index, crate::classic::board::COLS);
    Placement::from_core(&p)
}

/// The valid-action mask: entry `i` is true when a legal placement has
/// action index `i`.
pub fn compute_valid_mask(board: &Board, piece: &Piece) -> (mask: [bool; NUM_ACTIONS])
    requires
        board.wf(),
    ensures
        forall|i: int|
            0 <= i < NUM_ACTIONS ==> mask@[i] == exists|k: int|
                0 <= k < enumerate_spec(classic_config(), board@, *piece).len()
                    && spec_placement_index(
                    #[trigger] enumerate_spec(classic_config(), board@, *piece)[k],
                ) == i,
{
    let v = crate::placement::compute_valid_mask(&board.grid, piece);
    let mut mask = [false; NUM_ACTIONS];
    let mut i: usize = 0;
    while i < NUM_ACTIONS
        invariant
            i <= NUM_ACTIONS,
            v@.len() == NUM_ACTIONS,
            forall|j: int| 0 <= j < i ==> mask@[j] == v@[j],
        decreases NUM_ACTIONS - i,
    {
        mask[i] = v[i];
        i += 1;
    }
    mask
}

} // verus!
