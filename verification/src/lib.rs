//! Rules of a two-player placement game in which a newly placed piece
//! captures the runs of opposing pieces that it flanks: the board, the check
//! of a proposed move, and the step from one snapshot of a match to the next.

pub mod address;
pub mod board;
pub mod capture;
pub mod game;
pub mod laws;
pub mod moves;
pub mod state;
pub mod validation;
