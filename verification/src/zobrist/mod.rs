//! Zobrist keys for (cell, player) pairs.

use vstd::prelude::*;
use rustc_hash::FxHasher;
use std::hash::{Hash, Hasher};
use crate::game::{hex::Hex, player::Player};

verus! {

/// The Zobrist key of `player`'s stone on `hex`: the `FxHasher` digest of the
/// pair. `FxHasher` mixes with a constant that depends on the machine's pointer
/// width, so no contract names the value; callers only XOR it in and out.
#[verifier::external_body]
pub fn hash(hex: Hex, player: Player) -> u64 {
    let mut hasher = FxHasher::default();
    hex.hash(&mut hasher);
    player.hash(&mut hasher);
    hasher.finish()
}

} // verus!
