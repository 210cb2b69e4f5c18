//! A chess rules engine: board model, threat detection, legal move
//! generation, material scoring and a bounded minimax search, with every
//! function carrying a machine-checked contract.

pub mod board;
pub mod engine;
pub mod util;
