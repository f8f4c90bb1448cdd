//! Core logic of a novelty "counting on fingers and toes" calculator.
//!
//! The library owns the three-stage view lifecycle (input, counting
//! animation, result): it validates an addition expression of two
//! non-negative integers, checks the sum against the twenty available
//! limbs, advances the count on a fixed cadence, and emits one cue per
//! newly reached count for a presentation layer to act on.
//! Rendering, audio playback and window management stay outside.

pub mod clock;
pub mod decimal;
pub mod parser;
pub mod cue;
pub mod machine;
pub mod laws;
