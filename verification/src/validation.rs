//! Whether a proposed move may be made.

use vstd::prelude::*;
use crate::address::Address;
use crate::board::on_board;
use crate::capture::captured;
use crate::game::{Game, GameView, Move, MoveView};
use crate::moves::MoveType;
use crate::state::{GameState, GameStateView, Piece};

verus! {

/// Why a move is turned down.
#[derive(Clone, Copy, Debug, PartialEq, Eq, Structural)]
pub enum ValidationError {
    /// The match has ended.
    GameAlreadyOver,
    /// The author made the previous move, or opens the match without being
    /// the second player.
    NotPlayersTurn,
    /// The cell is not on the board.
    PositionOutOfBounds,
    /// The cell already holds a piece.
    PositionOccupied,
    /// A piece placed in the cell would bracket no run of the opponent.
    NoCaptureAvailable,
}

impl ValidationError {
    /// The reason in words.
    pub open spec fn text(self) -> Seq<char> {
        match self {
            ValidationError::GameAlreadyOver => "This game has ended"@,
            ValidationError::NotPlayersTurn => "It is not this player's turn"@,
            ValidationError::PositionOutOfBounds => "Piece is not in bounds"@,
            ValidationError::PositionOccupied => "Location is not empty"@,
            ValidationError::NoCaptureAvailable => "No opponent pieces can be flipped from this location"@,
        }
    }

    /// The reason in words, for the user who proposed the move.
    pub fn message(&self) -> (words: String)
        ensures
            words@ == self.text(),
    {
        match self {
            ValidationError::GameAlreadyOver => String::from_str("This game has ended"),
            ValidationError::NotPlayersTurn => String::from_str("It is not this player's turn"),
            ValidationError::PositionOutOfBounds => String::from_str("Piece is not in bounds"),
            ValidationError::PositionOccupied => String::from_str("Location is not empty"),
            ValidationError::NoCaptureAvailable => String::from_str(
                "No opponent pieces can be flipped from this location",
            ),
        }
    }
}

/// Whether `author` may move now: not after the end of the match, not twice
/// in a row, and as the first mover only if they are the second player.
pub open spec fn turn_verdict(state: GameStateView, game: GameView, author: Seq<char>) -> Result<
    (),
    ValidationError,
> {
    if state.game_over {
        Err(ValidationError::GameAlreadyOver)
    } else if state.moves.len() > 0 {
        if state.moves.last().author == author {
            Err(ValidationError::NotPlayersTurn)
        } else {
            Ok(())
        }
    } else if game.player_2 == author {
        Ok(())
    } else {
        Err(ValidationError::NotPlayersTurn)
    }
}

/// Whether a piece may be placed in column `x` and row `y` by the player
/// with the given number: the cell is on the board, it is empty, and the
/// piece would capture something.
pub open spec fn place_verdict(state: GameStateView, x: usize, y: usize, player: u8) -> Result<
    (),
    ValidationError,
> {
    if !on_board(x as int, y as int) {
        Err(ValidationError::PositionOutOfBounds)
    } else if state.occupied(Piece { x, y }) {
        Err(ValidationError::PositionOccupied)
    } else if captured(state.board(), x as int, y as int, player).len() == 0 {
        Err(ValidationError::NoCaptureAvailable)
    } else {
        Ok(())
    }
}

/// The verdict on move `m` in `state`: the first failing check, in the order
/// turn, bounds, occupancy, capture; passing and resigning only need the
/// turn.
pub open spec fn verdict(state: GameStateView, game: GameView, m: MoveView) -> Result<
    (),
    ValidationError,
> {
    match turn_verdict(state, game, m.author) {
        Err(e) => Err(e),
        Ok(_) => match m.move_type {
            MoveType::Place { x, y } => place_verdict(state, x, y, game.player_number(m.author)),
            MoveType::Pass => Ok(()),
            MoveType::Resign => Ok(()),
        },
    }
}

/// Checks that it is `player`'s turn in `game_state`.
pub fn is_players_turn(player: Address, game: &Game, game_state: &GameState) -> (r: Result<
    (),
    ValidationError,
>)
    ensures
        r == turn_verdict(game_state@, game@, player@),
{
    if game_state.game_over {
        return Err(ValidationError::GameAlreadyOver);
    }
    let played = game_state.moves.len();
    if played > 0 {
        let last_move = &game_state.moves[played - 1];
        assert(game_state@.moves.last() == last_move@);
        if last_move.author == player {
            Err(ValidationError::NotPlayersTurn)
        } else {
            Ok(())
        }
    } else if game.player_2 == player {
        Ok(())
    } else {
        Err(ValidationError::NotPlayersTurn)
    }
}

impl Move {
    /// Checks this move against the rules, given the match and its state
    /// before the move. The board is laid out only for a placement that has
    /// passed the checks of turn, bounds and occupancy.
    pub fn is_valid(&self, game: Game, game_state: GameState) -> (r: Result<(), ValidationError>)
        requires
            match self.move_type {
                MoveType::Place { x, y } => turn_verdict(game_state@, game@, self.author@) is Ok
                    && on_board(x as int, y as int) && !game_state@.occupied(Piece { x, y })
                    ==> game_state@.pieces_on_board(),
                _ => true,
            },
        ensures
            r == verdict(game_state@, game@, self@),
    {
        match is_players_turn(self.author.clone(), &game, &game_state) {
            Err(e) => {
                return Err(e);
            },
            Ok(_) => {},
        }
        match self.move_type {
            MoveType::Place { x, y } => {
                let position = Piece { x, y };
                match position.is_in_bounds() {
                    Err(e) => {
                        return Err(e);
                    },
                    Ok(_) => {},
                }
                match position.is_empty(&game_state) {
                    Err(e) => {
                        return Err(e);
                    },
                    Ok(_) => {},
                }
                position.can_capture(&game, &game_state, &self.author)
            },
            MoveType::Pass => Ok(()),
            MoveType::Resign => Ok(()),
        }
    }
}

} // verus!
