//! A match between two participants, and the moves they make in it.

use vstd::prelude::*;
use crate::address::Address;
use crate::moves::MoveType;

verus! {

/// The two participants of a match. They are fixed for as long as it lasts.
#[derive(Debug, PartialEq, Eq)]
pub struct Game {
    pub player_1: Address,
    pub player_2: Address,
}

/// What the rules see of a [`Game`].
pub struct GameView {
    pub player_1: Seq<char>,
    pub player_2: Seq<char>,
}

impl View for Game {
    type V = GameView;

    open spec fn view(&self) -> GameView {
        GameView { player_1: self.player_1@, player_2: self.player_2@ }
    }
}

impl Clone for Game {
    fn clone(&self) -> (copy: Game)
        ensures
            copy@ == self@,
    {
        Game { player_1: self.player_1.clone(), player_2: self.player_2.clone() }
    }
}

impl GameView {
    /// The number, 1 or 2, under which `author` plays: whoever is not the
    /// first player moves the second player's pieces.
    pub open spec fn player_number(self, author: Seq<char>) -> u8 {
        if self.player_1 == author {
            1
        } else {
            2
        }
    }

    /// The participant who gains the game when `author` concedes it.
    pub open spec fn opponent_of(self, author: Seq<char>) -> Seq<char> {
        if self.player_1 == author {
            self.player_2
        } else {
            self.player_1
        }
    }
}

/// One move, with the participant who made it.
#[derive(Debug, PartialEq, Eq)]
pub struct Move {
    pub author: Address,
    pub move_type: MoveType,
}

/// What the rules see of a [`Move`].
pub struct MoveView {
    pub author: Seq<char>,
    pub move_type: MoveType,
}

impl View for Move {
    type V = MoveView;

    open spec fn view(&self) -> MoveView {
        MoveView { author: self.author@, move_type: self.move_type }
    }
}

impl Clone for Move {
    fn clone(&self) -> (copy: Move)
        ensures
            copy@ == self@,
    {
        Move { author: self.author.clone(), move_type: self.move_type }
    }
}

} // verus!
