//! Game parameters.

use vstd::prelude::*;

verus! {

/// The rules a game is played under.
#[derive(Clone, Copy, Debug)]
pub struct Config {
    /// The length of a line of one player's stones that wins.
    pub win_distance: i32,
    /// How far from the nearest stone a new stone may be placed.
    pub view_distance: i32,
    /// The number of turns a driver plays before declaring a draw.
    pub turn_limit: u32,
    /// How far from the origin a stone may be placed.
    pub size_limit: i32,
}

} // verus!
