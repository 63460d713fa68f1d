//! The kinds of move a player can make.

use vstd::prelude::*;

verus! {

/// What a player does on their turn.
#[derive(Clone, Copy, Debug, PartialEq, Eq, Structural)]
pub enum MoveType {
    /// Claim the empty cell in column `x` and row `y`.
    Place { x: usize, y: usize },
    /// Give the turn away without placing.
    Pass,
    /// Concede the game.
    Resign,
}

impl MoveType {
    /// Sample moves that show a client how a move is written down.
    pub fn describe() -> (samples: Vec<MoveType>)
        ensures
            samples@ == seq![MoveType::Place { x: 0, y: 0 }, MoveType::Resign],
    {
        let mut samples: Vec<MoveType> = Vec::new();
        samples.push(MoveType::Place { x: 0, y: 0 });
        samples.push(MoveType::Resign);
        assert(samples@ =~= seq![MoveType::Place { x: 0, y: 0 }, MoveType::Resign]);
        samples
    }
}

} // verus!
