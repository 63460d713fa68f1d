//! The snapshot of a match and how a move changes it.

use vstd::prelude::*;
use crate::address::Address;
use crate::board::{board_text, on_board, Board, Cells, BOARD_SIZE};
use crate::capture::captured;
use crate::game::{Game, GameView, Move, MoveView};
use crate::moves::MoveType;
use crate::laws::{pieces_stay_on_board, valid_move_keeps_players_apart};
use crate::validation::{verdict, ValidationError};

verus! {

/// A cell of the board, by column `x` and row `y`.
#[derive(Clone, Copy, Debug, PartialEq, Eq, Structural)]
pub struct Piece {
    pub x: usize,
    pub y: usize,
}

/// Everything that is known of a match after some of its moves.
#[derive(Debug, PartialEq, Eq)]
pub struct GameState {
    pub moves: Vec<Move>,
    pub player_1_pieces: Vec<Piece>,
    pub player_2_pieces: Vec<Piece>,
    pub winner: Option<Address>,
    pub game_over: bool,
}

/// What the rules see of a [`GameState`].
#[verifier::ext_equal]
pub struct GameStateView {
    pub moves: Seq<MoveView>,
    pub player_1_pieces: Seq<Piece>,
    pub player_2_pieces: Seq<Piece>,
    pub winner: Option<Seq<char>>,
    pub game_over: bool,
}

impl View for GameState {
    type V = GameStateView;

    open spec fn view(&self) -> GameStateView {
        GameStateView {
            moves: self.moves@.map_values(|m: Move| m@),
            player_1_pieces: self.player_1_pieces@,
            player_2_pieces: self.player_2_pieces@,
            winner: match self.winner {
                Some(a) => Some(a@),
                None => None,
            },
            game_over: self.game_over,
        }
    }
}

impl Clone for GameState {
    fn clone(&self) -> (copy: GameState)
        ensures
            copy@ == self@,
    {
        let copy = GameState {
            moves: self.moves.clone(),
            player_1_pieces: self.player_1_pieces.clone(),
            player_2_pieces: self.player_2_pieces.clone(),
            winner: match &self.winner {
                Some(a) => Some(a.clone()),
                None => None,
            },
            game_over: self.game_over,
        };
        assert(copy@ =~= self@);
        copy
    }
}

/// Whether every piece of `pieces` lies on the board.
pub open spec fn all_on_board(pieces: Seq<Piece>) -> bool {
    forall|i: int| 0 <= i < pieces.len() ==> on_board(#[trigger] pieces[i].x as int, pieces[i].y as int)
}

impl GameStateView {
    /// Whether every piece of either player lies on the board.
    pub open spec fn pieces_on_board(self) -> bool {
        all_on_board(self.player_1_pieces) && all_on_board(self.player_2_pieces)
    }

    /// Who owns the cell in column `x` and row `y`: 0 for nobody, else the
    /// player's number.
    pub open spec fn owner(self, x: int, y: int) -> u8 {
        let cell = Piece { x: x as usize, y: y as usize };
        if self.player_2_pieces.contains(cell) {
            2
        } else if self.player_1_pieces.contains(cell) {
            1
        } else {
            0
        }
    }

    /// Whether either player has a piece in `cell`.
    pub open spec fn occupied(self, cell: Piece) -> bool {
        self.player_1_pieces.contains(cell) || self.player_2_pieces.contains(cell)
    }

    /// Whether no cell holds pieces of both players.
    pub open spec fn disjoint(self) -> bool {
        forall|p: Piece| !(self.player_1_pieces.contains(p) && self.player_2_pieces.contains(p))
    }

    /// What holds of every snapshot of a match played by the rules: the
    /// pieces lie on the board, no cell is listed twice, and no cell belongs
    /// to both players.
    pub open spec fn wf(self) -> bool {
        &&& self.pieces_on_board()
        &&& self.player_1_pieces.no_duplicates()
        &&& self.player_2_pieces.no_duplicates()
        &&& self.disjoint()
    }

    /// The snapshot before the first move: four pieces in the middle of the
    /// board, two of each player, on crossing diagonals.
    pub open spec fn initial() -> GameStateView {
        GameStateView {
            moves: Seq::empty(),
            player_1_pieces: seq![Piece { x: 4, y: 3 }, Piece { x: 3, y: 4 }],
            player_2_pieces: seq![Piece { x: 3, y: 3 }, Piece { x: 4, y: 4 }],
            winner: None,
            game_over: false,
        }
    }

    /// What the viewer is told about the turn.
    pub open spec fn status_line(self, viewer: Seq<char>) -> Seq<char> {
        if self.winner is Some {
            "This game has finished"@
        } else if self.moves.len() > 0 {
            if self.moves.last().author != viewer {
                "It is your turn"@
            } else {
                "It is your opponent's turn"@
            }
        } else {
            "Player 2 goes first"@
        }
    }

    /// The snapshot as text for `viewer`: the line about the turn, an empty
    /// line, and the board.
    pub open spec fn rendered(self, viewer: Seq<char>) -> Seq<char> {
        self.status_line(viewer) + "\n\n"@ + board_text(self.board())
    }

    /// The dense board that the two piece lists describe.
    pub open spec fn board(self) -> Cells {
        Seq::new(BOARD_SIZE as nat, |y: int| Seq::new(BOARD_SIZE as nat, |x: int| self.owner(x, y)))
    }
}

/// The pieces of `pieces` that are not among `taken`, in their old order.
pub open spec fn remaining(pieces: Seq<Piece>, taken: Seq<Piece>) -> Seq<Piece> {
    pieces.filter(|p: Piece| !taken.contains(p))
}

/// The snapshot after move `m` in `state`. The move joins the history. A
/// placed piece joins its player's pieces, and if the move is the newest of
/// the match, so do the pieces that it captures, which leave the opponent's.
/// A pass that follows a pass ends the match for the player with more pieces,
/// if there is one. A resignation ends it for the opponent. A winner that the
/// snapshot already has stays the winner, whatever the move.
pub open spec fn step(state: GameStateView, game: GameView, m: MoveView, is_last_move: bool) -> GameStateView {
    let moves = state.moves.push(m);
    match m.move_type {
        MoveType::Place { x, y } => {
            let number = game.player_number(m.author);
            let placed = Piece { x, y };
            let taken = captured(state.board(), x as int, y as int, number);
            if number == 1 {
                GameStateView {
                    moves,
                    player_1_pieces: if is_last_move {
                        state.player_1_pieces.push(placed) + taken
                    } else {
                        state.player_1_pieces.push(placed)
                    },
                    player_2_pieces: if is_last_move {
                        remaining(state.player_2_pieces, taken)
                    } else {
                        state.player_2_pieces
                    },
                    ..state
                }
            } else {
                GameStateView {
                    moves,
                    player_1_pieces: if is_last_move {
                        remaining(state.player_1_pieces, taken)
                    } else {
                        state.player_1_pieces
                    },
                    player_2_pieces: if is_last_move {
                        state.player_2_pieces.push(placed) + taken
                    } else {
                        state.player_2_pieces.push(placed)
                    },
                    ..state
                }
            }
        },
        MoveType::Pass => {
            if state.moves.len() > 0 && state.moves.last().move_type == MoveType::Pass {
                GameStateView {
                    moves,
                    winner: if state.winner is Some {
                        state.winner
                    } else if state.player_1_pieces.len() > state.player_2_pieces.len() {
                        Some(game.player_1)
                    } else if state.player_2_pieces.len() > state.player_1_pieces.len() {
                        Some(game.player_2)
                    } else {
                        None
                    },
                    game_over: true,
                    ..state
                }
            } else {
                GameStateView { moves, ..state }
            }
        },
        MoveType::Resign => GameStateView {
            moves,
            winner: if state.winner is Some {
                state.winner
            } else {
                Some(game.opponent_of(m.author))
            },
            game_over: true,
            ..state
        },
    }
}

/// Whether `p` is one of `pieces`.
fn contains_piece(pieces: &Vec<Piece>, p: Piece) -> (found: bool)
    ensures
        found == pieces@.contains(p),
{
    let mut i: usize = 0;
    while i < pieces.len()
        invariant
            i <= pieces.len(),
            forall|j: int| 0 <= j < i ==> pieces@[j] != p,
        decreases pieces.len() - i,
    {
        if pieces[i] == p {
            return true;
        }
        i = i + 1;
    }
    false
}

/// The pieces of `pieces` that are not among `taken`.
fn without(pieces: &Vec<Piece>, taken: &Vec<Piece>) -> (rest: Vec<Piece>)
    ensures
        rest@ == remaining(pieces@, taken@),
{
    let mut rest: Vec<Piece> = Vec::new();
    let mut i: usize = 0;
    while i < pieces.len()
        invariant
            i <= pieces.len(),
            rest@ == remaining(pieces@.take(i as int), taken@),
        decreases pieces.len() - i,
    {
        let p = pieces[i];
        assert(pieces@.take(i + 1).drop_last() =~= pieces@.take(i as int));
        reveal(Seq::filter);
        if !contains_piece(taken, p) {
            rest.push(p);
        }
        i = i + 1;
    }
    assert(pieces@.take(pieces.len() as int) =~= pieces@);
    rest
}

/// Whether every piece of `pieces` lies on the board.
fn all_in_bounds(pieces: &Vec<Piece>) -> (ok: bool)
    ensures
        ok == all_on_board(pieces@),
{
    let mut i: usize = 0;
    while i < pieces.len()
        invariant
            i <= pieces.len(),
            forall|j: int| 0 <= j < i ==> on_board((#[trigger] pieces@[j]).x as int, pieces@[j].y as int),
        decreases pieces.len() - i,
    {
        if pieces[i].x >= BOARD_SIZE || pieces[i].y >= BOARD_SIZE {
            return false;
        }
        i = i + 1;
    }
    true
}

impl Piece {
    /// Checks that the cell lies on the board.
    pub fn is_in_bounds(&self) -> (r: Result<(), ValidationError>)
        ensures
            r == (if on_board(self.x as int, self.y as int) {
                Ok(())
            } else {
                Err(ValidationError::PositionOutOfBounds)
            }),
    {
        if self.x < BOARD_SIZE && self.y < BOARD_SIZE {
            Ok(())
        } else {
            Err(ValidationError::PositionOutOfBounds)
        }
    }

    /// Checks that neither player has a piece in the cell.
    pub fn is_empty(&self, game_state: &GameState) -> (r: Result<(), ValidationError>)
        ensures
            r == (if game_state@.occupied(*self) {
                Err(ValidationError::PositionOccupied)
            } else {
                Ok(())
            }),
    {
        if contains_piece(&game_state.player_1_pieces, *self) || contains_piece(
            &game_state.player_2_pieces,
            *self,
        ) {
            Err(ValidationError::PositionOccupied)
        } else {
            Ok(())
        }
    }

    /// Checks that a piece placed in the cell by `author` would capture at
    /// least one piece of the opponent.
    pub fn can_capture(&self, game: &Game, game_state: &GameState, author: &Address) -> (r: Result<
        (),
        ValidationError,
    >)
        requires
            game_state@.pieces_on_board(),
            on_board(self.x as int, self.y as int),
        ensures
            r == (if captured(
                game_state@.board(),
                self.x as int,
                self.y as int,
                game@.player_number(author@),
            ).len() > 0 {
                Ok(())
            } else {
                Err(ValidationError::NoCaptureAvailable)
            }),
    {
        let player_num: u8 = if game.player_1 == *author {
            1
        } else {
            2
        };
        if !Board::set(game_state).can_capture(self.x, self.y, player_num) {
            Err(ValidationError::NoCaptureAvailable)
        } else {
            Ok(())
        }
    }
}

impl GameState {
    /// The snapshot before the first move.
    pub fn initial() -> (state: GameState)
        ensures
            state@ == GameStateView::initial(),
            state@.wf(),
    {
        let mut player_1_pieces: Vec<Piece> = Vec::new();
        player_1_pieces.push(Piece { x: 4, y: 3 });
        player_1_pieces.push(Piece { x: 3, y: 4 });
        let mut player_2_pieces: Vec<Piece> = Vec::new();
        player_2_pieces.push(Piece { x: 3, y: 3 });
        player_2_pieces.push(Piece { x: 4, y: 4 });
        let state = GameState {
            moves: Vec::new(),
            player_1_pieces,
            player_2_pieces,
            winner: None,
            game_over: false,
        };
        assert(state@ =~= GameStateView::initial());
        state
    }

    /// Whether every piece of either player lies on the board, as drawing
    /// the board and scanning it for captures require.
    pub fn pieces_on_board(&self) -> (ok: bool)
        ensures
            ok == self@.pieces_on_board(),
    {
        all_in_bounds(&self.player_1_pieces) && all_in_bounds(&self.player_2_pieces)
    }

    /// Describes the snapshot in text for `viewer`: whose turn it is, then
    /// the board. The snapshot stays as it is.
    pub fn render(&self, viewer: &Address) -> (text: String)
        requires
            self@.pieces_on_board(),
        ensures
            text@ == self@.rendered(viewer@),
    {
        let played = self.moves.len();
        let turn: &str = if self.winner.is_some() {
            "This game has finished"
        } else if played > 0 {
            assert(self@.moves.last() == self.moves@[played - 1]@);
            if self.moves[played - 1].author != *viewer {
                "It is your turn"
            } else {
                "It is your opponent's turn"
            }
        } else {
            "Player 2 goes first"
        };
        let mut text = String::from_str(turn);
        text.append("\n\n");
        let board = Board::set(self).render();
        text.append(board.as_str());
        text
    }

    /// The snapshot after `next_move`, which must have passed validation.
    /// `is_last_move` says that the move is the newest of the match, so
    /// that its captures are carried out. A match that has a winner keeps
    /// it.
    pub fn evolve(&self, game: Game, next_move: &Move, is_last_move: bool) -> (next: GameState)
        requires
            is_last_move ==> match next_move.move_type {
                MoveType::Place { x, y } => on_board(x as int, y as int) && self@.pieces_on_board(),
                _ => true,
            },
        ensures
            next@ == step(self@, game@, next_move@, is_last_move),
            self@.winner is Some ==> next@.winner == self@.winner,
            self@.wf() && verdict(self@, game@, next_move@) is Ok ==> next@.wf(),
            self@.pieces_on_board() && (match next_move.move_type {
                MoveType::Place { x, y } => on_board(x as int, y as int),
                _ => true,
            }) ==> next@.pieces_on_board(),
    {
        let mut moves = self.moves.clone();
        moves.push(next_move.clone());
        let mut player_1_pieces = self.player_1_pieces.clone();
        let mut player_2_pieces = self.player_2_pieces.clone();
        let mut winner = match &self.winner {
            Some(a) => Some(a.clone()),
            None => None,
        };
        let mut game_over = self.game_over;
        assert(player_1_pieces@ =~= self.player_1_pieces@);
        assert(player_2_pieces@ =~= self.player_2_pieces@);

        match next_move.move_type {
            MoveType::Place { x, y } => {
                if game.player_1 == next_move.author {
                    player_1_pieces.push(Piece { x, y });
                    if is_last_move {
                        let mut board = Board::set(self);
                        let mut taken = board.do_capture(x, y, 1);
                        player_2_pieces = without(&player_2_pieces, &taken);
                        player_1_pieces.append(&mut taken);
                    }
                } else {
                    player_2_pieces.push(Piece { x, y });
                    if is_last_move {
                        let mut board = Board::set(self);
                        let mut taken = board.do_capture(x, y, 2);
                        player_1_pieces = without(&player_1_pieces, &taken);
                        player_2_pieces.append(&mut taken);
                    }
                }
            },
            MoveType::Pass => {
                let played = self.moves.len();
                if played > 0 {
                    assert(self@.moves.last() == self.moves@[played - 1]@);
                    if self.moves[played - 1].move_type == MoveType::Pass {
                        if winner.is_none() {
                            if player_1_pieces.len() > player_2_pieces.len() {
                                winner = Some(game.player_1.clone());
                            } else if player_2_pieces.len() > player_1_pieces.len() {
                                winner = Some(game.player_2.clone());
                            }
                        }
                        game_over = true;
                    }
                }
            },
            MoveType::Resign => {
                if winner.is_none() {
                    if game.player_1 == next_move.author {
                        winner = Some(game.player_2.clone());
                    } else {
                        winner = Some(game.player_1.clone());
                    }
                }
                game_over = true;
            },
        }
        let next = GameState { moves, player_1_pieces, player_2_pieces, winner, game_over };
        assert(next@.moves =~= self@.moves.push(next_move@));
        assert(next@ =~= step(self@, game@, next_move@, is_last_move));
        proof {
            if self@.wf() && verdict(self@, game@, next_move@) is Ok {
                valid_move_keeps_players_apart(self@, game@, next_move@, is_last_move);
            }
            if self@.pieces_on_board() && (match next_move.move_type {
                MoveType::Place { x, y } => on_board(x as int, y as int),
                _ => true,
            }) {
                pieces_stay_on_board(self@, game@, next_move@, is_last_move);
            }
        }
        next
    }
}

} // verus!
