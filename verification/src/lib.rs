//! A hexagonal connect-N game engine: board, rules, candidate generation
//! and simple bots, with their behaviour stated as Verus contracts.

pub mod ai;
pub mod bots;
pub mod coords;
pub mod diag;
pub mod game;
pub mod text;
pub mod zobrist;
