//! Speech segmentation for a live audio stream.
//!
//! A stream of fixed-size sample chunks, each scored with a speech
//! probability, is turned into bounded speech segments: hysteresis against
//! chatter, one chunk of pre-roll so onsets are not clipped, a minimum
//! duration that suppresses premature cuts, and an optional maximum duration
//! that bounds segment length.

pub mod config;
pub mod engine;
pub mod error;
pub mod laws;
pub mod samples;
pub mod scorer;
pub mod text;

use vstd::prelude::*;

verus! {

/// Fixed-point scale for speech probabilities: a probability `p` in `[0, 1]`
/// is carried as an integer in `[0, PROB_SCALE]` meaning `p * PROB_SCALE`.
pub const PROB_SCALE: u32 = 1000000;

} // verus!
