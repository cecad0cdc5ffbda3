//! What is needed to take back a half-turn.

use vstd::prelude::*;
use crate::game::{hex::Hex, phase::Phase, player::Player};

verus! {

/// The record `Game::apply_half_turn` hands back and `Game::undo_half_turn` consumes.
pub struct Undo {
    pub hex: Hex,
    pub prev_pending: Option<Hex>,
    pub prev_phase: Phase,
    pub prev_turn: Player,
    pub prev_zhash: u64,
}

} // verus!
