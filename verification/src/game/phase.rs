//! Which half of a turn is being played.

use vstd::prelude::*;

verus! {

/// A turn consists of two placements: `First` and then `Second`.
#[derive(Clone, Copy, Debug, PartialEq, Eq, Structural)]
pub enum Phase {
    First,
    Second,
}

} // verus!
