//! A verified chess rules engine.
//!
//! The engine owns the board state, enumerates legal moves per piece,
//! enforces king-safety via a simulate-and-revert legality filter, and
//! applies the special rules (castling, en passant, pawn promotion,
//! turn alternation).  Rendering, input parsing beyond coordinate
//! notation, and any UI belong to the surrounding layer.

pub mod apply;
pub mod board;
pub mod game;
pub mod gen;
pub mod laws;
pub mod piece;
pub mod rules;
