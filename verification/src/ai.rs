//! Move generation and position evaluation.

pub mod cluster;
pub mod features;
pub mod fits;
pub mod laws;
pub mod movegen;
