//! Pseudo-legal move generation for an 8x8 chess board.

pub mod board;
pub mod laws;
pub mod moves;
pub mod rays;
pub mod rules;
