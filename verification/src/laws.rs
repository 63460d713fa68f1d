//! What holds of every match played by the rules, proved of the functions
//! that check and apply moves.

use vstd::prelude::*;
use crate::board::{holds, on_board, Cells};
use crate::capture::{
    brackets, captured, cell_at, direction, flank_len, in_run, lemma_bracket_unique,
    lemma_captured_members, lemma_captured_no_duplicates, lemma_captured_none, lemma_run_cells,
    opponent_of,
};
use crate::game::{GameView, MoveView};
use crate::moves::MoveType;
use crate::state::{all_on_board, remaining, step, GameStateView, Piece};
use crate::validation::{place_verdict, turn_verdict, verdict, ValidationError};

verus! {

/// Whether a history obeys the order of play: the second player opens, and
/// nobody moves twice in a row.
pub open spec fn turns_alternate(moves: Seq<MoveView>, game: GameView) -> bool {
    &&& moves.len() > 0 ==> moves[0].author == game.player_2
    &&& forall|i: int, j: int|
        0 <= i && j == i + 1 && j < moves.len() ==> (#[trigger] moves[i]).author != (
        #[trigger] moves[j]).author
}

/// The winner that move `m` names in `state`, if it names one: the opponent
/// of who resigns, or after two passes in a row the player with more
/// pieces. The name counts only where the match has no winner yet.
pub open spec fn named_winner(state: GameStateView, game: GameView, m: MoveView) -> Option<
    Seq<char>,
> {
    match m.move_type {
        MoveType::Place { .. } => None,
        MoveType::Pass => if state.moves.len() > 0 && state.moves.last().move_type
            == MoveType::Pass {
            if state.player_1_pieces.len() > state.player_2_pieces.len() {
                Some(game.player_1)
            } else if state.player_2_pieces.len() > state.player_1_pieces.len() {
                Some(game.player_2)
            } else {
                None
            }
        } else {
            None
        },
        MoveType::Resign => Some(game.opponent_of(m.author)),
    }
}

/// What is left of `pieces` after `taken` are gone: exactly the pieces that
/// were not taken, none of them twice if none was listed twice before.
pub proof fn lemma_remaining(pieces: Seq<Piece>, taken: Seq<Piece>)
    ensures
        forall|p: Piece|
            remaining(pieces, taken).contains(p) <==> (pieces.contains(p) && !taken.contains(p)),
        pieces.no_duplicates() ==> remaining(pieces, taken).no_duplicates(),
        remaining(pieces, taken).len() <= pieces.len(),
    decreases pieces.len(),
{
    reveal(Seq::filter);
    let keep = |p: Piece| !taken.contains(p);
    let rest = remaining(pieces, taken);
    if pieces.len() == 0 {
        assert(rest =~= pieces);
    } else {
        let front = pieces.drop_last();
        let last = pieces.last();
        lemma_remaining(front, taken);
        let kept = remaining(front, taken);
        assert(rest == if keep(last) {
            kept.push(last)
        } else {
            kept
        });
        assert forall|p: Piece| rest.contains(p) <==> (pieces.contains(p) && !taken.contains(p)) by {
            if rest.contains(p) {
                let t = choose|t: int| 0 <= t < rest.len() && rest[t] == p;
                if t < kept.len() {
                    assert(kept[t] == p);
                    assert(kept.contains(p));
                    let u = choose|u: int| 0 <= u < front.len() && front[u] == p;
                    assert(pieces[u] == p);
                } else {
                    assert(p == last);
                    assert(pieces[pieces.len() - 1] == p);
                }
            }
            if pieces.contains(p) && !taken.contains(p) {
                let u = choose|u: int| 0 <= u < pieces.len() && pieces[u] == p;
                if u < front.len() {
                    assert(front[u] == p);
                    assert(front.contains(p));
                    let t = choose|t: int| 0 <= t < kept.len() && kept[t] == p;
                    assert(rest[t] == p);
                } else {
                    assert(rest[rest.len() - 1] == p);
                }
            }
        }
        if pieces.no_duplicates() {
            assert(front.no_duplicates());
            if keep(last) {
                assert forall|a: int| 0 <= a < kept.len() implies kept[a] != last by {
                    assert(kept.contains(kept[a]));
                    let u = choose|u: int| 0 <= u < front.len() && front[u] == kept[a];
                    assert(pieces[u] == kept[a]);
                }
            }
        }
    }
}

/// The dense board shows for each cell who owns it.
pub proof fn lemma_board_shows_owner(state: GameStateView, p: Piece, v: u8)
    requires
        holds(state.board(), p.x as int, p.y as int, v),
    ensures
        v == 2 ==> state.player_2_pieces.contains(p),
        v == 1 ==> state.player_1_pieces.contains(p) && !state.player_2_pieces.contains(p),
        v == 0 ==> !state.occupied(p),
{
    assert(state.board()[p.y as int][p.x as int] == state.owner(p.x as int, p.y as int));
    assert(Piece { x: p.x as int as usize, y: p.y as int as usize } == p);
}

/// Every captured cell lies on the board and held a piece of the opponent,
/// and no cell is captured twice.
pub proof fn captured_cells_were_the_opponents(state: GameStateView, x: int, y: int, player: u8)
    requires
        player == 1 || player == 2,
    ensures
        captured(state.board(), x, y, player).no_duplicates(),
        all_on_board(captured(state.board(), x, y, player)),
        forall|p: Piece| #[trigger]
            captured(state.board(), x, y, player).contains(p) ==> (if player == 1 {
                state.player_2_pieces.contains(p)
            } else {
                state.player_1_pieces.contains(p) && !state.player_2_pieces.contains(p)
            }),
{
    let taken = captured(state.board(), x, y, player);
    lemma_captured_no_duplicates(state.board(), x, y, player, 8);
    assert forall|p: Piece| #[trigger] taken.contains(p) implies on_board(p.x as int, p.y as int) && (
    if player == 1 {
        state.player_2_pieces.contains(p)
    } else {
        state.player_1_pieces.contains(p) && !state.player_2_pieces.contains(p)
    }) by {
        lemma_captured_members(state.board(), x, y, player, 8, p);
        let (j, i) = choose|j: int, i: int| j < 8 && in_run(state.board(), x, y, player, j, i, p);
        lemma_run_cells(state.board(), x, y, player, j, i, p);
        lemma_board_shows_owner(state, p, opponent_of(player));
    }
    assert forall|t: int| 0 <= t < taken.len() implies on_board(
        (#[trigger] taken[t]).x as int,
        taken[t].y as int,
    ) by {
        assert(taken.contains(taken[t]));
    }
}

/// A cell is captured exactly when it lies in a run of the opponent's pieces
/// that starts beside the placed piece and ends before a piece of the
/// placing player.
pub proof fn capture_is_flanking(cells: Cells, x: int, y: int, player: u8, p: Piece)
    requires
        player == 1 || player == 2,
    ensures
        captured(cells, x, y, player).contains(p) <==> exists|j: int, n: int, i: int|
            0 <= j < 8 && #[trigger] brackets(cells, x, y, direction(j).0, direction(j).1, player, n)
                && 1 <= i <= n && p == #[trigger] cell_at(x, y, direction(j).0, direction(j).1, i),
{
    lemma_captured_members(cells, x, y, player, 8, p);
    if captured(cells, x, y, player).contains(p) {
        let (j, i) = choose|j: int, i: int| j < 8 && in_run(cells, x, y, player, j, i, p);
        lemma_run_cells(cells, x, y, player, j, i, p);
        let n = flank_len(cells, x, y, direction(j).0, direction(j).1, player);
        assert(brackets(cells, x, y, direction(j).0, direction(j).1, player, n) && 1 <= i <= n && p
            == cell_at(x, y, direction(j).0, direction(j).1, i));
    }
    if exists|j: int, n: int, i: int|
        0 <= j < 8 && #[trigger] brackets(cells, x, y, direction(j).0, direction(j).1, player, n) && 1
            <= i <= n && p == #[trigger] cell_at(x, y, direction(j).0, direction(j).1, i) {
        let (j, n, i) = choose|j: int, n: int, i: int|
            0 <= j < 8 && #[trigger] brackets(cells, x, y, direction(j).0, direction(j).1, player, n)
                && 1 <= i <= n && p == #[trigger] cell_at(
                x,
                y,
                direction(j).0,
                direction(j).1,
                i,
            );
        lemma_bracket_unique(cells, x, y, direction(j).0, direction(j).1, player, n, n);
        assert(in_run(cells, x, y, player, j, i, p));
    }
}

/// The snapshot before the first move is well formed, and its empty history
/// obeys the order of play.
pub proof fn initial_state_is_well_formed(game: GameView)
    ensures
        GameStateView::initial().wf(),
        GameStateView::initial().player_1_pieces.to_set().disjoint(
            GameStateView::initial().player_2_pieces.to_set(),
        ),
        turns_alternate(GameStateView::initial().moves, game),
        !GameStateView::initial().game_over,
        GameStateView::initial().winner is None,
{
}

/// No cell ever belongs to both players: a move that passes validation takes
/// a well-formed snapshot to a well-formed one, whether or not its captures
/// are carried out.
pub proof fn valid_move_keeps_players_apart(
    state: GameStateView,
    game: GameView,
    m: MoveView,
    is_last_move: bool,
)
    requires
        state.wf(),
        verdict(state, game, m) is Ok,
    ensures
        step(state, game, m, is_last_move).wf(),
        step(state, game, m, is_last_move).player_1_pieces.to_set().disjoint(
            step(state, game, m, is_last_move).player_2_pieces.to_set(),
        ),
{
    let next = step(state, game, m, is_last_move);
    match m.move_type {
        MoveType::Place { x, y } => {
            let number = game.player_number(m.author);
            let placed = Piece { x, y };
            let taken = captured(state.board(), x as int, y as int, number);
            assert(place_verdict(state, x, y, number) is Ok);
            assert(!state.occupied(placed));
            captured_cells_were_the_opponents(state, x as int, y as int, number);
            lemma_remaining(state.player_1_pieces, taken);
            lemma_remaining(state.player_2_pieces, taken);
            let own = if number == 1 {
                state.player_1_pieces
            } else {
                state.player_2_pieces
            };
            let other = if number == 1 {
                state.player_2_pieces
            } else {
                state.player_1_pieces
            };
            let grown = own.push(placed);
            assert forall|p: Piece| grown.contains(p) <==> (own.contains(p) || p == placed) by {
                if grown.contains(p) {
                    let t = choose|t: int| 0 <= t < grown.len() && grown[t] == p;
                    if t < own.len() {
                        assert(own[t] == p);
                    }
                }
                if own.contains(p) {
                    let t = choose|t: int| 0 <= t < own.len() && own[t] == p;
                    assert(grown[t] == p);
                }
                if p == placed {
                    assert(grown[own.len() as int] == p);
                }
            }
            assert(grown.no_duplicates());
            assert(all_on_board(grown));
            if is_last_move {
                let full = grown + taken;
                let left = remaining(other, taken);
                assert forall|a: int, b: int|
                    0 <= a < grown.len() && 0 <= b < taken.len() implies grown[a] != taken[b] by {
                    assert(grown.contains(grown[a]));
                    assert(taken.contains(taken[b]));
                }
                vstd::seq_lib::lemma_no_dup_in_concat(grown, taken);
                assert(full.no_duplicates());
                assert(all_on_board(full));
                assert forall|t: int| 0 <= t < left.len() implies on_board(
                    (#[trigger] left[t]).x as int,
                    left[t].y as int,
                ) by {
                    assert(left.contains(left[t]));
                    let u = choose|u: int| 0 <= u < other.len() && other[u] == left[t];
                }
                assert(all_on_board(left));
                assert forall|p: Piece| !(full.contains(p) && left.contains(p)) by {
                    if full.contains(p) && left.contains(p) {
                        let t = choose|t: int| 0 <= t < full.len() && full[t] == p;
                        if t < grown.len() {
                            assert(grown[t] == p);
                            assert(grown.contains(p));
                        } else {
                            assert(taken[t - grown.len()] == p);
                            assert(taken.contains(p));
                        }
                    }
                }
                if number == 1 {
                    assert(next.player_1_pieces == full);
                    assert(next.player_2_pieces == left);
                } else {
                    assert(next.player_2_pieces == full);
                    assert(next.player_1_pieces == left);
                }
            } else {
                if number == 1 {
                    assert(next.player_1_pieces == grown);
                    assert(next.player_2_pieces == other);
                } else {
                    assert(next.player_2_pieces == grown);
                    assert(next.player_1_pieces == other);
                }
            }
            assert(next.wf());
        },
        MoveType::Pass => {},
        MoveType::Resign => {},
    }
    assert(next.player_1_pieces.to_set().disjoint(next.player_2_pieces.to_set())) by {
        assert forall|p: Piece|
            !(next.player_1_pieces.to_set().contains(p) && next.player_2_pieces.to_set().contains(
                p,
            )) by {
            assert(!(next.player_1_pieces.contains(p) && next.player_2_pieces.contains(p)));
        }
    }
}

/// The pieces stay on the board under every move that places none outside
/// it.
pub proof fn pieces_stay_on_board(state: GameStateView, game: GameView, m: MoveView, is_last_move: bool)
    requires
        state.pieces_on_board(),
        match m.move_type {
            MoveType::Place { x, y } => on_board(x as int, y as int),
            _ => true,
        },
    ensures
        step(state, game, m, is_last_move).pieces_on_board(),
{
    match m.move_type {
        MoveType::Place { x, y } => {
            let number = game.player_number(m.author);
            let taken = captured(state.board(), x as int, y as int, number);
            captured_cells_were_the_opponents(state, x as int, y as int, number);
            lemma_remaining(state.player_1_pieces, taken);
            lemma_remaining(state.player_2_pieces, taken);
            let left_1 = remaining(state.player_1_pieces, taken);
            let left_2 = remaining(state.player_2_pieces, taken);
            assert forall|t: int| 0 <= t < left_1.len() implies on_board(
                (#[trigger] left_1[t]).x as int,
                left_1[t].y as int,
            ) by {
                assert(left_1.contains(left_1[t]));
                let u = choose|u: int|
                    0 <= u < state.player_1_pieces.len() && state.player_1_pieces[u] == left_1[t];
            }
            assert forall|t: int| 0 <= t < left_2.len() implies on_board(
                (#[trigger] left_2[t]).x as int,
                left_2[t].y as int,
            ) by {
                assert(left_2.contains(left_2[t]));
                let u = choose|u: int|
                    0 <= u < state.player_2_pieces.len() && state.player_2_pieces[u] == left_2[t];
            }
            assert(all_on_board(state.player_1_pieces.push(Piece { x, y })));
            assert(all_on_board(state.player_2_pieces.push(Piece { x, y })));
            assert(all_on_board(state.player_1_pieces.push(Piece { x, y }) + taken));
            assert(all_on_board(state.player_2_pieces.push(Piece { x, y }) + taken));
        },
        MoveType::Pass => {},
        MoveType::Resign => {},
    }
}

/// Every move lengthens the history by itself and leaves the earlier moves
/// as they were.
pub proof fn history_grows_by_one(state: GameStateView, game: GameView, m: MoveView, is_last_move: bool)
    ensures
        step(state, game, m, is_last_move).moves.len() == state.moves.len() + 1,
        step(state, game, m, is_last_move).moves.last() == m,
        step(state, game, m, is_last_move).moves.drop_last() == state.moves,
{
    assert(state.moves.push(m).drop_last() =~= state.moves);
}

/// A match without a winner gets the one that the move names, if it names
/// one; a match with a winner keeps it.
pub proof fn winner_follows_the_move(
    state: GameStateView,
    game: GameView,
    m: MoveView,
    is_last_move: bool,
)
    ensures
        step(state, game, m, is_last_move).winner == (if state.winner is Some {
            state.winner
        } else {
            named_winner(state, game, m)
        }),
{
}

/// Once there is a winner, it stays the winner under every move: also
/// under one that validation would turn down, such as a resignation of the
/// winner or a second pass while the other player leads.
pub proof fn winner_is_kept(state: GameStateView, game: GameView, m: MoveView, is_last_move: bool)
    requires
        state.winner is Some,
    ensures
        step(state, game, m, is_last_move).winner == state.winner,
{
}

/// A move is accepted only while the match has no winner, provided that a
/// match with a winner is over, as it is in every snapshot that play can
/// reach.
pub proof fn accepted_move_finds_no_winner(state: GameStateView, game: GameView, m: MoveView)
    requires
        state.winner is Some ==> state.game_over,
        verdict(state, game, m) is Ok,
    ensures
        state.winner is None,
        !state.game_over,
{
}

/// A match that is over stays over, and a match with a winner is over after
/// every move if it was so before.
pub proof fn end_is_final(state: GameStateView, game: GameView, m: MoveView, is_last_move: bool)
    ensures
        state.game_over ==> step(state, game, m, is_last_move).game_over,
        (state.winner is Some ==> state.game_over) ==> (step(
            state,
            game,
            m,
            is_last_move,
        ).winner is Some ==> step(state, game, m, is_last_move).game_over),
{
}

/// No move is accepted once the match is over.
pub proof fn no_move_after_the_end(state: GameStateView, game: GameView, m: MoveView)
    requires
        state.game_over,
    ensures
        verdict(state, game, m) == Err::<(), ValidationError>(ValidationError::GameAlreadyOver),
{
}

/// The order of play is kept: a move that passes validation is made by the
/// second player if it opens the match, and else by another participant
/// than the move before it.
pub proof fn valid_move_keeps_turn_order(
    state: GameStateView,
    game: GameView,
    m: MoveView,
    is_last_move: bool,
)
    requires
        turns_alternate(state.moves, game),
        verdict(state, game, m) is Ok,
    ensures
        turns_alternate(step(state, game, m, is_last_move).moves, game),
{
    assert(turn_verdict(state, game, m.author) is Ok);
    let next = step(state, game, m, is_last_move).moves;
    assert(next == state.moves.push(m));
    assert forall|i: int, j: int| 0 <= i && j == i + 1 && j < next.len() implies (
    #[trigger] next[i]).author != (#[trigger] next[j]).author by {
        if j < state.moves.len() {
            assert(next[i] == state.moves[i]);
            assert(next[j] == state.moves[j]);
        } else {
            assert(next[i] == state.moves.last());
        }
    }
}

/// The second player opens the match: on an empty history any move of
/// another participant is turned down as out of turn, and a move of the
/// second player passes the turn check.
pub proof fn second_player_opens(state: GameStateView, game: GameView, m: MoveView)
    requires
        state.moves.len() == 0,
        !state.game_over,
    ensures
        m.author != game.player_2 ==> verdict(state, game, m) == Err::<(), ValidationError>(
            ValidationError::NotPlayersTurn,
        ),
        m.author == game.player_2 ==> turn_verdict(state, game, m.author) is Ok,
{
}

/// A piece that would bracket no run in any direction is turned down for
/// that reason, if nothing else is wrong with the move; and a piece that is
/// accepted captures at least one cell.
pub proof fn placement_must_capture(state: GameStateView, game: GameView, m: MoveView, x: usize, y: usize)
    requires
        m.move_type == (MoveType::Place { x, y }),
        turn_verdict(state, game, m.author) is Ok,
        on_board(x as int, y as int),
        !state.occupied(Piece { x, y }),
    ensures
        (forall|j: int, n: int|
            0 <= j < 8 ==> !#[trigger] brackets(
                state.board(),
                x as int,
                y as int,
                direction(j).0,
                direction(j).1,
                game.player_number(m.author),
                n,
            )) <==> verdict(state, game, m) == Err::<(), ValidationError>(
            ValidationError::NoCaptureAvailable,
        ),
        verdict(state, game, m) is Ok <==> captured(
            state.board(),
            x as int,
            y as int,
            game.player_number(m.author),
        ).len() > 0,
{
    let cells = state.board();
    let player = game.player_number(m.author);
    lemma_captured_none(cells, x as int, y as int, player);
    if captured(cells, x as int, y as int, player).len() == 0 {
        assert forall|j: int, n: int| 0 <= j < 8 implies !#[trigger] brackets(
            cells,
            x as int,
            y as int,
            direction(j).0,
            direction(j).1,
            player,
            n,
        ) by {
            if brackets(cells, x as int, y as int, direction(j).0, direction(j).1, player, n) {
                lemma_bracket_unique(
                    cells,
                    x as int,
                    y as int,
                    direction(j).0,
                    direction(j).1,
                    player,
                    n,
                    n,
                );
                assert(flank_len(cells, x as int, y as int, direction(j).0, direction(j).1, player)
                    == 0);
            }
        }
    } else {
        let j = choose|j: int|
            0 <= j < 8 && flank_len(
                cells,
                x as int,
                y as int,
                #[trigger] direction(j).0,
                direction(j).1,
                player,
            ) != 0;
        let n = flank_len(cells, x as int, y as int, direction(j).0, direction(j).1, player);
        assert(brackets(cells, x as int, y as int, direction(j).0, direction(j).1, player, n));
    }
}

/// Two passes in a row end the match. Where it has no winner yet, the player
/// with more pieces becomes the winner, and nobody does when both have as
/// many.
pub proof fn double_pass_ends_the_match(
    state: GameStateView,
    game: GameView,
    m: MoveView,
    is_last_move: bool,
)
    requires
        m.move_type == MoveType::Pass,
        state.moves.len() > 0,
        state.moves.last().move_type == MoveType::Pass,
    ensures
        step(state, game, m, is_last_move).game_over,
        state.winner is None && state.player_1_pieces.len() > state.player_2_pieces.len() ==> step(
            state,
            game,
            m,
            is_last_move,
        ).winner == Some(game.player_1),
        state.winner is None && state.player_2_pieces.len() > state.player_1_pieces.len() ==> step(
            state,
            game,
            m,
            is_last_move,
        ).winner == Some(game.player_2),
        state.player_1_pieces.len() == state.player_2_pieces.len() ==> step(
            state,
            game,
            m,
            is_last_move,
        ).winner == state.winner,
        step(state, game, m, is_last_move).player_1_pieces == state.player_1_pieces,
        step(state, game, m, is_last_move).player_2_pieces == state.player_2_pieces,
{
}

/// Whoever resigns a match that has no winner yet hands it to the opponent,
/// whatever the board shows. Every resignation that is accepted is of this
/// kind.
pub proof fn resignation_ends_the_match(
    state: GameStateView,
    game: GameView,
    m: MoveView,
    is_last_move: bool,
)
    requires
        m.move_type == MoveType::Resign,
    ensures
        step(state, game, m, is_last_move).game_over,
        state.winner is None && m.author == game.player_1 ==> step(
            state,
            game,
            m,
            is_last_move,
        ).winner == Some(game.player_2),
        state.winner is None && m.author != game.player_1 ==> step(
            state,
            game,
            m,
            is_last_move,
        ).winner == Some(game.player_1),
        step(state, game, m, is_last_move).player_1_pieces == state.player_1_pieces,
        step(state, game, m, is_last_move).player_2_pieces == state.player_2_pieces,
{
}

/// The snapshot that a match reaches when the moves of `history` are made
/// one after the other from the start, each as the newest move of its time.
pub open spec fn played(game: GameView, history: Seq<MoveView>) -> GameStateView
    decreases history.len(),
{
    if history.len() == 0 {
        GameStateView::initial()
    } else {
        step(played(game, history.drop_last()), game, history.last(), true)
    }
}

/// Whether every move of `history` passed validation in the snapshot that
/// the moves before it had reached.
pub open spec fn by_the_rules(game: GameView, history: Seq<MoveView>) -> bool
    decreases history.len(),
{
    history.len() == 0 || (by_the_rules(game, history.drop_last()) && verdict(
        played(game, history.drop_last()),
        game,
        history.last(),
    ) is Ok)
}

/// Every snapshot that a match played by the rules can reach is sound: no
/// cell belongs to both players, its history is the moves that were made,
/// in the order of play, and it has a winner only when the match is over.
pub proof fn reachable_states_are_sound(game: GameView, history: Seq<MoveView>)
    requires
        by_the_rules(game, history),
    ensures
        played(game, history).wf(),
        played(game, history).player_1_pieces.to_set().disjoint(
            played(game, history).player_2_pieces.to_set(),
        ),
        played(game, history).moves == history,
        turns_alternate(history, game),
        played(game, history).winner is Some ==> played(game, history).game_over,
    decreases history.len(),
{
    if history.len() == 0 {
        initial_state_is_well_formed(game);
        assert(played(game, history).moves =~= history);
    } else {
        let earlier = history.drop_last();
        let before = played(game, earlier);
        reachable_states_are_sound(game, earlier);
        valid_move_keeps_players_apart(before, game, history.last(), true);
        valid_move_keeps_turn_order(before, game, history.last(), true);
        end_is_final(before, game, history.last(), true);
        assert(earlier.push(history.last()) =~= history);
    }
}

} // verus!
