//! Six-piece rush: a small deterministic board game on a 4x4 grid of
//! intersections, with a rule engine, a turn-based state machine, and a
//! search-based computer opponent.

pub mod ai;
pub mod board;
pub mod error;
pub mod game;
pub mod piece;
pub mod rules;
pub mod save;
pub mod state;
