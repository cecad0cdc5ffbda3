//! Reasons a whole turn is refused.

use vstd::prelude::*;
use vstd::string::StringExecFns;

verus! {

/// Why a turn was refused.
#[derive(Debug, Clone, Copy, PartialEq, Eq, Structural)]
pub enum Diag {
    GameOver,
    InvalidTurn,
    CellOutOfBounds,
    CellOccupied,
}

impl Diag {
    /// The human-readable description of the refusal.
    pub open spec fn text(self) -> Seq<char> {
        match self {
            Diag::GameOver => "Game over"@,
            Diag::InvalidTurn => "Invalid turn"@,
            Diag::CellOutOfBounds => "Cell out of bounds"@,
            Diag::CellOccupied => "Cell occupied"@,
        }
    }

    /// The human-readable description of the refusal.
    pub fn message(&self) -> (m: &'static str)
        ensures
            m@ == self.text(),
    {
        match self {
            Diag::GameOver => "Game over",
            Diag::InvalidTurn => "Invalid turn",
            Diag::CellOutOfBounds => "Cell out of bounds",
            Diag::CellOccupied => "Cell occupied",
        }
    }

    /// The description as an owned string.
    pub fn to_string(&self) -> (s: String)
        ensures
            s@ == self.text(),
    {
        let m = self.message();
        String::from_str(m)
    }
}

} // verus!
