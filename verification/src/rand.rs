//! Random pieces drawn from a clock seed.

use vstd::prelude::*;
use crate::board::PuyoColor;
use crate::config::GameConfig;
use crate::hash_util::spec_splitmix64;
use crate::piece::Piece;

pub use crate::hash_util::time_seed;

verus! {

/// Extra mixing of a seed, used to draw the satellite colour independently of
/// the axis colour.
pub open spec fn spec_remix(x: u64) -> u64 {
    let y = (x ^ (x >> 30u64)).wrapping_mul(0x517cc1b727220a95u64);
    y ^ (y >> 27u64)
}

/// The colour numbered `x % num_colors + 1`.
pub open spec fn seeded_color(x: u64, num_colors: u64) -> PuyoColor {
    PuyoColor::spec_from_u8(((x % num_colors) + 1) as u8)
}

/// The piece drawn from seed `x`: the axis colour from `x`, the satellite
/// colour from `spec_remix(x)`.
pub open spec fn spec_piece_from_seed(x: u64, num_colors: u64) -> Piece {
    Piece {
        axis_color: seeded_color(x, num_colors),
        satellite_color: seeded_color(spec_remix(x), num_colors),
    }
}

/// The piece drawn from `seed` when `num_colors` colours are in play.  With
/// at most four colours both puyos have one of the first `num_colors` colours.
pub fn piece_from_seed(seed: u64, num_colors: usize) -> (p: Piece)
    requires
        1 <= num_colors <= 255,
    ensures
        p == spec_piece_from_seed(seed, num_colors as u64),
        num_colors <= 4 ==> 1 <= p.axis_color.code() <= num_colors,
        num_colors <= 4 ==> 1 <= p.satellite_color.code() <= num_colors,
{
    let n = num_colors as u64;
    let mut x = seed;
    let axis = ((x % n) as u8) + 1;
    x = (x ^ (x >> 30)).wrapping_mul(0x517cc1b727220a95);
    x = x ^ (x >> 27);
    assert(x == spec_remix(seed));
    let sat = ((x % n) as u8) + 1;
    Piece::new(PuyoColor::from_u8(axis), PuyoColor::from_u8(sat))
}

/// A random piece from the clock seed, with the three colours of the default
/// configuration (Red, Green, Blue).
pub fn random_piece() -> (p: Piece)
    ensures
        exists|t: u64| p == spec_piece_from_seed(#[trigger] spec_splitmix64(t), 3),
        1 <= p.axis_color.code() <= 3,
        1 <= p.satellite_color.code() <= 3,
{
    let seed = time_seed();
    let num_colors = GameConfig::default().num_colors;
    piece_from_seed(seed, num_colors)
}

} // verus!
