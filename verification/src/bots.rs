//! Simple move-choosing strategies.

pub mod first;
pub mod random;
