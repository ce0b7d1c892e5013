//! The player's turn.

pub mod highlight_squares;
