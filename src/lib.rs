//! Scoring of ten-pin bowling: frames as views over each bowler's throws,
//! a per-bowler state machine that records throws, and a round-robin game.

pub mod frames;
pub mod games;
pub mod laws;
