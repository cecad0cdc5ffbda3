//! Reasons a placement is refused.

use vstd::prelude::*;

verus! {

/// Why a half-turn was refused.
#[derive(Clone, Copy, Debug, PartialEq, Eq, Structural)]
pub enum Diag {
    CellOccupied,
    CannotPlaceTwice,
    TooFarAway,
}

} // verus!
