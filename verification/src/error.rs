//! The error taxonomy of a streaming run.
//!
//! Each failure kind is a distinct value, so a caller can decide per kind
//! whether to abort the run, restart the stream, or skip one segment.

use vstd::prelude::*;

verus! {

/// What went wrong during a streaming run.
#[derive(Clone, Copy, Debug, PartialEq, Eq, Structural)]
pub enum VadError {
    /// Chunk acquisition or decoding failed; fatal to the run.
    Source,
    /// Speech-probability inference failed; fatal to the run, since the
    /// scorer's internal state is not guaranteed consistent afterwards.
    Scorer,
    /// A finalized segment could not be persisted or transcribed; the caller
    /// may skip that segment and continue.
    Sink,
    /// An invalid chunk size / sample rate / threshold combination was given
    /// at construction.
    Configuration,
}

} // verus!
