//! A chess rules engine: fully legal move generation (including en passant,
//! castling, and promotion) over immutable position values, plus an
//! adversarial minimax search with alpha-beta pruning.

pub mod ai;
pub mod game;
