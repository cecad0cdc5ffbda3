//! A full move: two placements.

use vstd::prelude::*;
use crate::game::hex::Hex;

verus! {

/// The two cells a player places on in one turn.
#[derive(Debug, Clone, Copy)]
pub struct Move(pub Hex, pub Hex);

} // verus!
