//! Pieces (pairs of puyos), their orientations, and placements.

use vstd::prelude::*;
use crate::board::PuyoColor;

verus! {

/// Where the satellite puyo sits relative to the axis puyo.
#[derive(Debug, Clone, Copy, PartialEq, Eq, Hash, Structural)]
pub enum Orientation {
    /// Satellite above the axis.
    North,
    /// Satellite right of the axis.
    East,
    /// Satellite below the axis.
    South,
    /// Satellite left of the axis.
    West,
}

impl Orientation {
    pub open spec fn spec_rotate_cw(self) -> Orientation {
        match self {
            Orientation::North => Orientation::East,
            Orientation::East => Orientation::South,
            Orientation::South => Orientation::West,
            Orientation::West => Orientation::North,
        }
    }

    pub open spec fn spec_rotate_ccw(self) -> Orientation {
        match self {
            Orientation::North => Orientation::West,
            Orientation::West => Orientation::South,
            Orientation::South => Orientation::East,
            Orientation::East => Orientation::North,
        }
    }

    /// `(dcol, drow)` of the satellite relative to the axis.
    pub open spec fn spec_offset(self) -> (int, int) {
        match self {
            Orientation::North => (0, 1),
            Orientation::East => (1, 0),
            Orientation::South => (0, -1),
            Orientation::West => (-1, 0),
        }
    }

    /// 0 = North, 1 = East, 2 = South, 3 = West.
    pub open spec fn spec_as_u8(self) -> u8 {
        match self {
            Orientation::North => 0,
            Orientation::East => 1,
            Orientation::South => 2,
            Orientation::West => 3,
        }
    }

    /// Rotate clockwise.
    pub fn rotate_cw(self) -> (o: Self)
        ensures
            o == self.spec_rotate_cw(),
    {
        match self {
            Orientation::North => Orientation::East,
            Orientation::East => Orientation::South,
            Orientation::South => Orientation::West,
            Orientation::West => Orientation::North,
        }
    }

    /// Rotate counter-clockwise.
    pub fn rotate_ccw(self) -> (o: Self)
        ensures
            o == self.spec_rotate_ccw(),
    {
        match self {
            Orientation::North => Orientation::West,
            Orientation::West => Orientation::South,
            Orientation::South => Orientation::East,
            Orientation::East => Orientation::North,
        }
    }

    /// The `(dcol, drow)` offset of the satellite relative to the axis.
    pub fn offset(self) -> (d: (i32, i32))
        ensures
            d.0 as int == self.spec_offset().0,
            d.1 as int == self.spec_offset().1,
    {
        match self {
            Orientation::North => (0, 1),
            Orientation::East => (1, 0),
            Orientation::South => (0, -1),
            Orientation::West => (-1, 0),
        }
    }

    /// Integer representation: 0 = North, 1 = East, 2 = South, 3 = West.
    pub fn as_u8(self) -> (v: u8)
        ensures
            v == self.spec_as_u8(),
    {
        match self {
            Orientation::North => 0,
            Orientation::East => 1,
            Orientation::South => 2,
            Orientation::West => 3,
        }
    }
}

/// A two-puyo piece: the axis puyo is the pivot, the satellite turns round it.
#[derive(Debug, Clone, Copy, PartialEq, Eq, Structural)]
pub struct Piece {
    pub axis_color: PuyoColor,
    pub satellite_color: PuyoColor,
}

impl Piece {
    pub fn new(axis: PuyoColor, satellite: PuyoColor) -> (p: Self)
        ensures
            p.axis_color == axis,
            p.satellite_color == satellite,
    {
        Piece { axis_color: axis, satellite_color: satellite }
    }
}

/// Where a piece goes: the axis column and the orientation.
#[derive(Debug, Clone, Copy, PartialEq, Eq, Hash, Structural)]
pub struct Placement {
    /// Axis column.
    pub col: usize,
    pub orientation: Orientation,
}

impl Placement {
    pub fn new(col: usize, orientation: Orientation) -> (p: Self)
        ensures
            p.col == col,
            p.orientation == orientation,
    {
        Placement { col, orientation }
    }

    /// Column of the satellite (it may lie off the board).
    pub open spec fn spec_satellite(self) -> int {
        self.col + self.orientation.spec_offset().0
    }

    /// The satellite's column, or `None` when it lies outside `0..cols`.
    pub fn satellite_col(&self, cols: usize) -> (r: Option<usize>)
        ensures
            r == if 0 <= self.spec_satellite() < cols {
                Some(self.spec_satellite() as usize)
            } else {
                None::<usize>
            },
    {
        match self.orientation {
            Orientation::East => {
                if self.col < cols && self.col + 1 < cols {
                    Some(self.col + 1)
                } else {
                    None
                }
            },
            Orientation::West => {
                if 1 <= self.col && self.col - 1 < cols {
                    Some(self.col - 1)
                } else {
                    None
                }
            },
            _ => {
                if self.col < cols {
                    Some(self.col)
                } else {
                    None
                }
            },
        }
    }

    /// The satellite's column, which must lie in `0..=usize::MAX`.
    pub fn satellite_index(&self) -> (c: usize)
        requires
            0 <= self.spec_satellite() <= usize::MAX,
        ensures
            c == self.spec_satellite(),
    {
        match self.orientation {
            Orientation::East => self.col + 1,
            Orientation::West => self.col - 1,
            _ => self.col,
        }
    }
}

/// Rotating clockwise then counter-clockwise gives back the orientation, and
/// four turns either way are the identity.
pub proof fn lemma_rotation_inverse(o: Orientation)
    ensures
        o.spec_rotate_cw().spec_rotate_ccw() == o,
        o.spec_rotate_ccw().spec_rotate_cw() == o,
        o.spec_rotate_cw().spec_rotate_cw().spec_rotate_cw().spec_rotate_cw() == o,
        o.spec_rotate_ccw().spec_rotate_ccw().spec_rotate_ccw().spec_rotate_ccw() == o,
{
}

} // verus!
