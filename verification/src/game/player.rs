//! The two players.

use vstd::prelude::*;

verus! {

/// One of the two players.
#[derive(Clone, Copy, Debug, PartialEq, Eq, Hash, Structural)]
pub enum Player {
    X,
    O,
}

impl Player {
    /// The other player.
    pub open spec fn opponent_spec(self) -> Player {
        match self {
            Player::X => Player::O,
            Player::O => Player::X,
        }
    }

    /// The other player.
    pub fn opponent(&self) -> (p: Self)
        ensures
            p == self.opponent_spec(),
    {
        match self {
            Self::X => Self::O,
            Self::O => Self::X,
        }
    }

    /// The terminal colour escape that marks this player's output.
    pub fn color(&self) -> (c: &'static str)
        ensures
            *self == Player::X ==> c@ == "\x1b[31m"@,
            *self == Player::O ==> c@ == "\x1b[34m"@,
    {
        match self {
            Self::X => "\x1b[31m",
            Self::O => "\x1b[34m",
        }
    }
}

/// `opponent` is an involution without fixed points.
pub proof fn lemma_opponent_involution(p: Player)
    ensures
        p.opponent_spec().opponent_spec() == p,
        p.opponent_spec() != p,
{
}

} // verus!
