//! The fixed-size game: a board of three columns and eight rows with three
//! colours, with its own constants, chain step details, seeded generator and
//! colour permutation table.

pub mod board;
pub mod config;
pub mod piece;
pub mod chain;
pub mod placement;
pub mod state;
pub mod puyo_game;
pub mod eval;
pub mod rng;
pub mod data;
pub mod search;
