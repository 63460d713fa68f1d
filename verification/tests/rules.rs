use reversi_rules::address::Address;
use reversi_rules::game::{Game, Move};
use reversi_rules::moves::MoveType;
use reversi_rules::state::{GameState, Piece};
use reversi_rules::validation::{is_players_turn, ValidationError};

fn alice() -> Address {
    Address::from_text("alice")
}

fn bob() -> Address {
    Address::from_text("bob")
}

fn game() -> Game {
    Game { player_1: alice(), player_2: bob() }
}

fn p(x: usize, y: usize) -> Piece {
    Piece { x, y }
}

fn place(author: Address, x: usize, y: usize) -> Move {
    Move { author, move_type: MoveType::Place { x, y } }
}

fn pass(author: Address) -> Move {
    Move { author, move_type: MoveType::Pass }
}

fn resign(author: Address) -> Move {
    Move { author, move_type: MoveType::Resign }
}

fn state(moves: Vec<Move>, player_1_pieces: Vec<Piece>, player_2_pieces: Vec<Piece>) -> GameState {
    GameState { moves, player_1_pieces, player_2_pieces, winner: None, game_over: false }
}

fn disjoint(s: &GameState) -> bool {
    s.player_1_pieces.iter().all(|a| !s.player_2_pieces.contains(a))
}

#[test]
fn initial_state_has_four_pieces_in_the_middle() {
    let s = GameState::initial();
    assert_eq!(s.moves, vec![]);
    assert_eq!(s.player_1_pieces, vec![p(4, 3), p(3, 4)]);
    assert_eq!(s.player_2_pieces, vec![p(3, 3), p(4, 4)]);
    assert_eq!(s.winner, None);
    assert!(!s.game_over);
    assert!(disjoint(&s));
    assert!(s.pieces_on_board());
}

#[test]
fn capture_of_a_forward_run() {
    let s = state(vec![pass(bob())], vec![p(3, 3)], vec![p(1, 3), p(2, 3)]);
    let m = place(alice(), 0, 3);
    assert_eq!(m.is_valid(game(), s.clone()), Ok(()));
    let next = s.evolve(game(), &m, true);
    assert_eq!(next.player_1_pieces, vec![p(3, 3), p(0, 3), p(1, 3), p(2, 3)]);
    assert_eq!(next.player_2_pieces, vec![]);
    assert_eq!(next.moves, vec![pass(bob()), place(alice(), 0, 3)]);
    assert_eq!(next.winner, None);
    assert!(!next.game_over);
}

#[test]
fn capture_of_a_backward_run() {
    let s = state(vec![pass(bob())], vec![p(0, 3)], vec![p(1, 3), p(2, 3)]);
    let m = place(alice(), 3, 3);
    assert_eq!(m.is_valid(game(), s.clone()), Ok(()));
    let next = s.evolve(game(), &m, true);
    assert_eq!(next.player_1_pieces, vec![p(0, 3), p(3, 3), p(2, 3), p(1, 3)]);
    assert_eq!(next.player_2_pieces, vec![]);
}

#[test]
fn capture_by_the_second_player_takes_from_the_first() {
    let s = state(vec![], vec![p(4, 3), p(3, 4)], vec![p(3, 3), p(4, 4)]);
    let m = place(bob(), 5, 3);
    assert_eq!(m.is_valid(game(), s.clone()), Ok(()));
    let next = s.evolve(game(), &m, true);
    assert_eq!(next.player_1_pieces, vec![p(3, 4)]);
    assert_eq!(next.player_2_pieces, vec![p(3, 3), p(4, 4), p(5, 3), p(4, 3)]);
}

#[test]
fn replayed_move_places_without_capturing() {
    let s = state(vec![pass(bob())], vec![p(3, 3)], vec![p(1, 3), p(2, 3)]);
    let next = s.evolve(game(), &place(alice(), 0, 3), false);
    assert_eq!(next.player_1_pieces, vec![p(3, 3), p(0, 3)]);
    assert_eq!(next.player_2_pieces, vec![p(1, 3), p(2, 3)]);
    assert_eq!(next.moves.len(), 2);
}

#[test]
fn first_move_belongs_to_the_second_player() {
    let s = GameState::initial();
    assert_eq!(
        place(alice(), 5, 3).is_valid(game(), s.clone()),
        Err(ValidationError::NotPlayersTurn)
    );
    assert_eq!(place(bob(), 5, 3).is_valid(game(), s.clone()), Ok(()));
    assert_eq!(pass(alice()).is_valid(game(), s.clone()), Err(ValidationError::NotPlayersTurn));
    assert_eq!(resign(alice()).is_valid(game(), s.clone()), Err(ValidationError::NotPlayersTurn));
    assert_eq!(pass(bob()).is_valid(game(), s.clone()), Ok(()));
    assert_eq!(resign(bob()).is_valid(game(), s), Ok(()));
}

#[test]
fn placement_beside_no_opponent_is_rejected() {
    let s = GameState::initial();
    assert_eq!(
        place(bob(), 0, 0).is_valid(game(), s.clone()),
        Err(ValidationError::NoCaptureAvailable)
    );
    assert_eq!(place(bob(), 7, 7).is_valid(game(), s), Err(ValidationError::NoCaptureAvailable));
}

#[test]
fn placement_beside_an_unbracketed_run_is_rejected() {
    // From (5, 2) the diagonal down and back runs over (4, 3) and (3, 4),
    // both of the first player, and ends on the empty cell (2, 5).
    let s = GameState::initial();
    assert_eq!(place(bob(), 5, 2).is_valid(game(), s), Err(ValidationError::NoCaptureAvailable));
    // A run that reaches the edge of the board is not bracketed either.
    let edge = state(vec![pass(bob())], vec![p(5, 5)], vec![p(1, 3), p(0, 3)]);
    assert_eq!(
        place(alice(), 2, 3).is_valid(game(), edge.clone()),
        Err(ValidationError::NoCaptureAvailable)
    );
    let next = edge.evolve(game(), &place(alice(), 2, 3), true);
    assert_eq!(next.player_1_pieces, vec![p(5, 5), p(2, 3)]);
    assert_eq!(next.player_2_pieces, vec![p(1, 3), p(0, 3)]);
}

#[test]
fn own_neighbour_is_no_bracket() {
    // The cell beside the placement is the player's own: nothing lies
    // between the two pieces.
    let s = state(vec![pass(bob())], vec![p(3, 3)], vec![p(6, 6)]);
    assert_eq!(place(alice(), 2, 3).is_valid(game(), s), Err(ValidationError::NoCaptureAvailable));
}

#[test]
fn move_after_the_end_is_rejected() {
    let mut s = GameState::initial();
    s.game_over = true;
    assert_eq!(place(bob(), 5, 3).is_valid(game(), s.clone()), Err(ValidationError::GameAlreadyOver));
    assert_eq!(pass(bob()).is_valid(game(), s.clone()), Err(ValidationError::GameAlreadyOver));
    assert_eq!(resign(alice()).is_valid(game(), s.clone()), Err(ValidationError::GameAlreadyOver));
    assert_eq!(is_players_turn(bob(), &game(), &s), Err(ValidationError::GameAlreadyOver));
}

#[test]
fn same_author_twice_is_rejected() {
    let s = state(vec![place(bob(), 5, 3)], vec![p(3, 4)], vec![p(3, 3), p(4, 4), p(5, 3), p(4, 3)]);
    assert_eq!(place(bob(), 5, 5).is_valid(game(), s.clone()), Err(ValidationError::NotPlayersTurn));
    assert_eq!(pass(bob()).is_valid(game(), s.clone()), Err(ValidationError::NotPlayersTurn));
    assert_eq!(is_players_turn(bob(), &game(), &s), Err(ValidationError::NotPlayersTurn));
    assert_eq!(is_players_turn(alice(), &game(), &s), Ok(()));
    assert_eq!(pass(alice()).is_valid(game(), s), Ok(()));
}

#[test]
fn placement_off_the_board_is_rejected() {
    let s = GameState::initial();
    assert_eq!(place(bob(), 8, 3).is_valid(game(), s.clone()), Err(ValidationError::PositionOutOfBounds));
    assert_eq!(place(bob(), 3, 8).is_valid(game(), s.clone()), Err(ValidationError::PositionOutOfBounds));
    assert_eq!(
        place(bob(), usize::MAX, 0).is_valid(game(), s.clone()),
        Err(ValidationError::PositionOutOfBounds)
    );
    // The turn is checked before the cell.
    assert_eq!(place(alice(), 8, 3).is_valid(game(), s), Err(ValidationError::NotPlayersTurn));
}

#[test]
fn placement_on_a_piece_is_rejected() {
    let s = GameState::initial();
    assert_eq!(place(bob(), 3, 3).is_valid(game(), s.clone()), Err(ValidationError::PositionOccupied));
    assert_eq!(place(bob(), 4, 3).is_valid(game(), s), Err(ValidationError::PositionOccupied));
}

#[test]
fn single_checks_of_a_cell() {
    let s = GameState::initial();
    assert_eq!(p(7, 7).is_in_bounds(), Ok(()));
    assert_eq!(p(0, 0).is_in_bounds(), Ok(()));
    assert_eq!(p(8, 0).is_in_bounds(), Err(ValidationError::PositionOutOfBounds));
    assert_eq!(p(0, 8).is_in_bounds(), Err(ValidationError::PositionOutOfBounds));
    assert_eq!(p(0, 0).is_empty(&s), Ok(()));
    assert_eq!(p(4, 3).is_empty(&s), Err(ValidationError::PositionOccupied));
    assert_eq!(p(4, 4).is_empty(&s), Err(ValidationError::PositionOccupied));
    assert_eq!(p(5, 3).can_capture(&game(), &s, &bob()), Ok(()));
    assert_eq!(p(5, 3).can_capture(&game(), &s, &alice()), Err(ValidationError::NoCaptureAvailable));
    assert_eq!(p(5, 4).can_capture(&game(), &s, &alice()), Ok(()));
}

#[test]
fn stranger_moves_the_second_players_pieces() {
    let s = state(vec![pass(alice())], vec![p(4, 3), p(3, 4)], vec![p(3, 3), p(4, 4)]);
    let carol = Address::from_text("carol");
    assert_eq!(place(carol.clone(), 5, 3).is_valid(game(), s.clone()), Ok(()));
    let next = s.evolve(game(), &place(carol, 5, 3), true);
    assert_eq!(next.player_2_pieces, vec![p(3, 3), p(4, 4), p(5, 3), p(4, 3)]);
}

#[test]
fn double_pass_ends_the_match_for_the_leader() {
    let s = state(
        vec![place(bob(), 5, 3), pass(alice()), pass(bob())],
        vec![p(0, 0), p(1, 0), p(2, 0), p(3, 0), p(4, 0)],
        vec![p(0, 7), p(1, 7), p(2, 7)],
    );
    assert_eq!(pass(alice()).is_valid(game(), s.clone()), Ok(()));
    let next = s.evolve(game(), &pass(alice()), true);
    assert!(next.game_over);
    assert_eq!(next.winner, Some(alice()));
    assert_eq!(next.player_1_pieces, s.player_1_pieces);
    assert_eq!(next.player_2_pieces, s.player_2_pieces);
    assert_eq!(next.moves.len(), 4);
}

#[test]
fn double_pass_can_make_the_second_player_win() {
    let s = state(vec![pass(bob())], vec![p(0, 0)], vec![p(0, 7), p(1, 7)]);
    let next = s.evolve(game(), &pass(alice()), true);
    assert!(next.game_over);
    assert_eq!(next.winner, Some(bob()));
}

#[test]
fn double_pass_with_equal_counts_is_a_tie() {
    let s = state(vec![pass(bob())], vec![p(0, 0), p(1, 0)], vec![p(0, 7), p(1, 7)]);
    let next = s.evolve(game(), &pass(alice()), true);
    assert!(next.game_over);
    assert_eq!(next.winner, None);
}

#[test]
fn single_pass_does_not_end_the_match() {
    let s = state(vec![place(bob(), 5, 3)], vec![p(3, 4)], vec![p(3, 3), p(4, 4), p(5, 3), p(4, 3)]);
    let next = s.evolve(game(), &pass(alice()), true);
    assert!(!next.game_over);
    assert_eq!(next.winner, None);
    assert_eq!(next.moves.len(), 2);
    let opening = GameState::initial().evolve(game(), &pass(bob()), true);
    assert!(!opening.game_over);
    assert_eq!(opening.winner, None);
}

#[test]
fn resignation_hands_the_match_to_the_opponent() {
    let s = state(vec![pass(bob())], vec![], vec![p(0, 7), p(1, 7)]);
    let next = s.evolve(game(), &resign(alice()), true);
    assert!(next.game_over);
    assert_eq!(next.winner, Some(bob()));
    assert_eq!(next.player_1_pieces, vec![]);
    assert_eq!(next.player_2_pieces, vec![p(0, 7), p(1, 7)]);
    let other = GameState::initial().evolve(game(), &resign(bob()), false);
    assert!(other.game_over);
    assert_eq!(other.winner, Some(alice()));
}

#[test]
fn every_move_joins_the_history() {
    let s = GameState::initial();
    let a = s.evolve(game(), &place(bob(), 5, 3), true);
    assert_eq!(a.moves, vec![place(bob(), 5, 3)]);
    let b = a.evolve(game(), &pass(alice()), true);
    assert_eq!(b.moves, vec![place(bob(), 5, 3), pass(alice())]);
    let c = b.evolve(game(), &resign(bob()), true);
    assert_eq!(c.moves, vec![place(bob(), 5, 3), pass(alice()), resign(bob())]);
    // The earlier snapshots are as they were.
    assert_eq!(s, GameState::initial());
    assert_eq!(a.moves.len(), 1);
}

#[test]
fn winner_stays_whatever_move_follows() {
    // The first player has won although the second holds more pieces.
    let mut s = state(vec![pass(bob()), pass(alice())], vec![p(0, 0)], vec![p(0, 7), p(1, 7)]);
    s.winner = Some(alice());
    s.game_over = true;
    let placed = s.evolve(game(), &place(bob(), 5, 5), false);
    assert_eq!(placed.winner, Some(alice()));
    assert!(placed.game_over);
    // The loser leads the count when the passes are doubled once more.
    let again = s.evolve(game(), &pass(bob()), true);
    assert_eq!(again.winner, Some(alice()));
    assert!(again.game_over);
    assert_eq!(again.moves.len(), 3);
    // The winner resigns.
    let winner_resigns = s.evolve(game(), &resign(alice()), true);
    assert_eq!(winner_resigns.winner, Some(alice()));
    assert!(winner_resigns.game_over);
    // The loser resigns.
    let loser_resigns = s.evolve(game(), &resign(bob()), true);
    assert_eq!(loser_resigns.winner, Some(alice()));
    assert!(loser_resigns.game_over);
    // A winner is kept even where the match was not marked as over.
    let mut odd = state(vec![pass(bob())], vec![p(0, 0), p(1, 0)], vec![p(0, 7)]);
    odd.winner = Some(bob());
    let doubled = odd.evolve(game(), &pass(alice()), true);
    assert_eq!(doubled.winner, Some(bob()));
    assert!(doubled.game_over);
    let conceded = odd.evolve(game(), &resign(bob()), true);
    assert_eq!(conceded.winner, Some(bob()));
    assert!(conceded.game_over);
}

#[test]
fn winner_of_a_played_match_does_not_change() {
    let g = game();
    let mut s = GameState::initial().evolve(g.clone(), &resign(bob()), true);
    assert_eq!(s.winner, Some(alice()));
    for m in [resign(alice()), pass(bob()), pass(alice()), place(bob(), 5, 3), resign(bob())].iter() {
        assert_eq!(m.is_valid(g.clone(), s.clone()), Err(ValidationError::GameAlreadyOver));
        s = s.evolve(g.clone(), m, false);
        assert_eq!(s.winner, Some(alice()));
        assert!(s.game_over);
    }
    assert_eq!(s.moves.len(), 6);
}

#[test]
fn placement_is_checked_before_the_board_is_read() {
    // A piece lies off the board: the checks that need no board still give
    // their errors.
    let s = state(vec![pass(alice())], vec![p(9, 9), p(2, 2)], vec![p(3, 3)]);
    assert_eq!(place(alice(), 4, 4).is_valid(game(), s.clone()), Err(ValidationError::NotPlayersTurn));
    assert_eq!(place(bob(), 8, 0).is_valid(game(), s.clone()), Err(ValidationError::PositionOutOfBounds));
    assert_eq!(place(bob(), 2, 2).is_valid(game(), s.clone()), Err(ValidationError::PositionOccupied));
    assert_eq!(place(bob(), 3, 3).is_valid(game(), s.clone()), Err(ValidationError::PositionOccupied));
    let mut over = s.clone();
    over.game_over = true;
    assert_eq!(place(bob(), 4, 4).is_valid(game(), over), Err(ValidationError::GameAlreadyOver));
}

#[test]
fn played_match_keeps_players_apart_and_turns_in_order() {
    let g = game();
    let script = vec![place(bob(), 5, 3), place(alice(), 5, 4), place(bob(), 3, 5)];
    let mut s = GameState::initial();
    for m in script.iter() {
        assert_eq!(m.is_valid(g.clone(), s.clone()), Ok(()));
        let before = s.moves.len();
        s = s.evolve(g.clone(), m, true);
        assert_eq!(s.moves.len(), before + 1);
        assert!(disjoint(&s));
        assert!(s.pieces_on_board());
    }
    assert_eq!(s.player_1_pieces, vec![p(5, 4)]);
    assert_eq!(
        s.player_2_pieces,
        vec![p(3, 3), p(5, 3), p(4, 3), p(3, 5), p(3, 4), p(4, 4)]
    );
    assert_eq!(s.moves[0].author, g.player_2);
    for pair in s.moves.windows(2) {
        assert_ne!(pair[0].author, pair[1].author);
    }
}

#[test]
fn second_move_of_the_played_match() {
    let s = GameState::initial().evolve(game(), &place(bob(), 5, 3), true);
    let m = place(alice(), 5, 4);
    assert_eq!(m.is_valid(game(), s.clone()), Ok(()));
    let next = s.evolve(game(), &m, true);
    assert_eq!(next.player_1_pieces, vec![p(3, 4), p(5, 4), p(4, 4)]);
    assert_eq!(next.player_2_pieces, vec![p(3, 3), p(5, 3), p(4, 3)]);
}

#[test]
fn reasons_in_words() {
    assert_eq!(ValidationError::GameAlreadyOver.message(), "This game has ended");
    assert_eq!(ValidationError::NotPlayersTurn.message(), "It is not this player's turn");
    assert_eq!(ValidationError::PositionOutOfBounds.message(), "Piece is not in bounds");
    assert_eq!(ValidationError::PositionOccupied.message(), "Location is not empty");
    assert_eq!(
        ValidationError::NoCaptureAvailable.message(),
        "No opponent pieces can be flipped from this location"
    );
}

#[test]
fn sample_moves() {
    assert_eq!(MoveType::describe(), vec![MoveType::Place { x: 0, y: 0 }, MoveType::Resign]);
}

#[test]
fn identities_compare_by_their_text() {
    assert_eq!(alice(), Address::from_text("alice"));
    assert_eq!(alice(), Address(String::from("alice")));
    assert_ne!(alice(), bob());
    assert_eq!(alice().clone(), alice());
    assert_eq!(game().clone(), game());
    assert_eq!(pass(bob()).clone(), pass(bob()));
    assert_ne!(pass(bob()), pass(alice()));
    assert_ne!(pass(bob()), resign(bob()));
}

#[test]
fn passing_needs_no_board() {
    let s = state(vec![], vec![p(8, 0)], vec![p(0, 9)]);
    assert_eq!(pass(bob()).is_valid(game(), s.clone()), Ok(()));
    assert_eq!(resign(bob()).is_valid(game(), s.clone()), Ok(()));
    assert_eq!(pass(alice()).is_valid(game(), s.clone()), Err(ValidationError::NotPlayersTurn));
    let next = s.evolve(game(), &place(bob(), 9, 9), false);
    assert_eq!(next.player_2_pieces, vec![p(0, 9), p(9, 9)]);
}

#[test]
fn pieces_off_the_board_are_noticed() {
    let s = state(vec![], vec![p(8, 0)], vec![]);
    assert!(!s.pieces_on_board());
    let t = state(vec![], vec![p(7, 0)], vec![p(0, 9)]);
    assert!(!t.pieces_on_board());
    let u = state(vec![], vec![p(7, 0)], vec![p(0, 7)]);
    assert!(u.pieces_on_board());
}
