//! Verified game logic of a small puyo-puyo trainer: boards, gravity and
//! chain resolution, scoring, piece placement and legal moves, seeded
//! pieces, and the integer core of the simulation evaluator.

pub mod config;
pub mod grid;
pub mod groups;
pub mod chain_model;
pub mod board;
pub mod score;
pub mod piece;
pub mod placement;
pub mod game;
pub mod hash_util;
pub mod rand;
pub mod state;
pub mod puyo_game;
pub mod eval;
pub mod data;
pub mod classic;
