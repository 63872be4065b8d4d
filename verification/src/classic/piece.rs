//! Placements on the fixed-size board.  Pieces and orientations are shared
//! with the configurable game.

use vstd::prelude::*;

pub use crate::piece::{Orientation, Piece};

verus! {

/// Where a piece goes: the axis column and the orientation.
#[derive(Debug, Clone, Copy, PartialEq, Eq, Hash, Structural)]
pub struct Placement {
    /// Axis column.
    pub col: usize,
    pub orientation: Orientation,
}

impl Placement {
    pub fn new(col: usize, orientation: Orientation) -> (p: Self)
        ensures
            p.col == col,
            p.orientation == orientation,
    {
        Placement { col, orientation }
    }

    /// The same placement as a placement of the configurable game.
    pub open spec fn spec_core(self) -> crate::piece::Placement {
        crate::piece::Placement { col: self.col, orientation: self.orientation }
    }

    /// Column of the satellite (it may lie off the board).
    pub open spec fn spec_satellite(self) -> int {
        self.col + self.orientation.spec_offset().0
    }

    /// The satellite's column, or `None` when it lies outside columns `0..6`.
    pub fn satellite_col(&self) -> (r: Option<usize>)
        ensures
            r == if 0 <= self.spec_satellite() < 6 {
                Some(self.spec_satellite() as usize)
            } else {
                None::<usize>
            },
    {
        self.to_core().satellite_col(6)
    }

    /// The same placement as a placement of the configurable game.
    pub fn to_core(&self) -> (p: crate::piece::Placement)
        ensures
            p == self.spec_core(),
    {
        crate::piece::Placement::new(self.col, self.orientation)
    }

    /// A placement of the configurable game as a placement here.
    pub fn from_core(p: &crate::piece::Placement) -> (q: Self)
        ensures
            q.spec_core() == *p,
    {
        Placement { col: p.col, orientation: p.orientation }
    }
}

} // verus!
