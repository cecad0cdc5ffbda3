//! The game engine and its pieces.

pub mod board;
pub mod candidates;
pub mod config;
pub mod diag;
pub mod game;
pub mod hex;
pub mod mv;
pub mod phase;
pub mod player;
pub mod undo;

use vstd::prelude::*;
use crate::coords::Hex;
use crate::game::player::Player;

verus! {

/// The stones a player places in one turn: one on the very first turn, two after.
#[derive(Debug, Clone, Copy)]
pub enum Turn {
    One(Hex),
    Two(Hex, Hex),
}

impl Turn {
    /// The cells of the turn, in order.
    pub open spec fn cells(self) -> Seq<Hex> {
        match self {
            Turn::One(h) => seq![h],
            Turn::Two(a, b) => seq![a, b],
        }
    }

    /// How many stones the turn places.
    pub fn len(&self) -> (n: usize)
        ensures
            n == self.cells().len(),
    {
        match self {
            Turn::One(_) => 1,
            Turn::Two(_, _) => 2,
        }
    }

    /// The cells of the turn, in order.
    pub fn iter(&self) -> (v: Vec<Hex>)
        ensures
            v@ == self.cells(),
    {
        match self {
            Turn::One(h) => vec![*h],
            Turn::Two(a, b) => vec![*a, *b],
        }
    }
}

/// How a game stands.
pub enum GameResult {
    Winner(Player),
    Ongoing,
    Draw,
}

impl GameResult {
    /// The one-letter record of a finished game: the winner's letter, or `D`
    /// when no one won.
    pub open spec fn letter_spec(&self) -> Seq<char> {
        match self {
            GameResult::Winner(Player::X) => "X"@,
            GameResult::Winner(Player::O) => "O"@,
            _ => "D"@,
        }
    }

    /// The terminal colour a finished game is printed in: red for `X`, blue
    /// for `O`, grey when no one won.
    pub open spec fn color_spec(&self) -> Seq<char> {
        match self {
            GameResult::Winner(Player::X) => "\x1b[31m"@,
            GameResult::Winner(Player::O) => "\x1b[34m"@,
            _ => "\x1b[37m"@,
        }
    }

    /// The terminal colour a finished game is printed in: red for `X`, blue
    /// for `O`, grey when no one won.
    pub fn color(&self) -> (s: &'static str)
        ensures
            s@ == self.color_spec(),
    {
        match self {
            GameResult::Winner(Player::X) => "\x1b[31m",
            GameResult::Winner(Player::O) => "\x1b[34m",
            _ => "\x1b[37m",
        }
    }

    /// The one-letter record of a finished game: the winner's letter, or `D`
    /// when no one won.
    pub fn letter(&self) -> (s: &'static str)
        ensures
            s@ == self.letter_spec(),
    {
        match self {
            GameResult::Winner(Player::X) => "X",
            GameResult::Winner(Player::O) => "O",
            _ => "D",
        }
    }
}

} // verus!
