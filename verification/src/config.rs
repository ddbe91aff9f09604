//! Engine configuration, validated once at construction.

use vstd::prelude::*;

use crate::error::VadError;
use crate::PROB_SCALE;

verus! {

/// The process-wide constants of one segmentation run, fixed at engine
/// construction.
///
/// Durations are given in whole seconds; the corresponding sample counts are
/// `secs * sample_rate`.
#[derive(Clone, Copy, Debug)]
pub struct Config {
    /// Samples per second of the incoming stream; 8000 or 16000.
    pub sample_rate: u32,
    /// Fixed length of every chunk, in samples; must be one of the scorer's
    /// trained window sizes for the active sample rate.
    pub chunk_size: usize,
    /// Per-chunk speech threshold, in units of `PROB_SCALE`: a chunk counts
    /// as speech when its probability is strictly above this value.
    pub probability_threshold: u32,
    /// A speech run shorter than this many seconds is never cut, whatever
    /// the scorer reports.
    pub min_speech_duration_secs: u32,
    /// When set, a segment is flushed as soon as appending the current chunk
    /// would reach this many seconds, regardless of classification.
    pub max_segment_duration_secs: Option<u32>,
}

impl Config {
    /// The scorer's trained window sizes for each supported sample rate.
    pub open spec fn chunk_size_allowed(sample_rate: u32, chunk_size: usize) -> bool {
        if sample_rate == 8000 {
            chunk_size == 256 || chunk_size == 512 || chunk_size == 768
        } else {
            chunk_size == 512 || chunk_size == 768 || chunk_size == 1024
        }
    }

    /// A configuration the engine accepts: a supported sample rate, a chunk
    /// size the scorer was trained on, a threshold on the probability scale,
    /// and a positive cap when one is set.
    pub open spec fn valid(self) -> bool {
        &&& (self.sample_rate == 8000 || self.sample_rate == 16000)
        &&& Self::chunk_size_allowed(self.sample_rate, self.chunk_size)
        &&& self.probability_threshold <= PROB_SCALE
        &&& (self.max_segment_duration_secs matches Some(secs) ==> secs >= 1)
    }

    /// The minimum speech duration, in samples.
    pub open spec fn min_samples(self) -> int {
        self.min_speech_duration_secs * self.sample_rate
    }

    /// The maximum segment duration, in samples; meaningful only when a cap
    /// is configured.
    pub open spec fn max_samples(self) -> int {
        match self.max_segment_duration_secs {
            Some(secs) => secs * self.sample_rate,
            None => 0,
        }
    }

    /// Decides validity of this configuration.
    pub fn is_valid(&self) -> (b: bool)
        ensures
            b == self.valid(),
    {
        let rate_ok = self.sample_rate == 8000 || self.sample_rate == 16000;
        let chunk_ok = if self.sample_rate == 8000 {
            self.chunk_size == 256 || self.chunk_size == 512 || self.chunk_size == 768
        } else {
            self.chunk_size == 512 || self.chunk_size == 768 || self.chunk_size == 1024
        };
        let threshold_ok = self.probability_threshold <= PROB_SCALE;
        let cap_ok = match self.max_segment_duration_secs {
            Some(secs) => secs >= 1,
            None => true,
        };
        rate_ok && chunk_ok && threshold_ok && cap_ok
    }

    /// Builds a configuration, rejecting any invalid combination instead of
    /// silently coercing it.
    pub fn new(
        sample_rate: u32,
        chunk_size: usize,
        probability_threshold: u32,
        min_speech_duration_secs: u32,
        max_segment_duration_secs: Option<u32>,
    ) -> (r: Result<Config, VadError>)
        ensures
            ({
                let c = (Config {
                    sample_rate,
                    chunk_size,
                    probability_threshold,
                    min_speech_duration_secs,
                    max_segment_duration_secs,
                });
                if c.valid() {
                    r == Ok::<Config, VadError>(c)
                } else {
                    r == Err::<Config, VadError>(VadError::Configuration)
                }
            }),
    {
        let config = Config {
            sample_rate,
            chunk_size,
            probability_threshold,
            min_speech_duration_secs,
            max_segment_duration_secs,
        };
        if config.is_valid() {
            Ok(config)
        } else {
            Err(VadError::Configuration)
        }
    }
}

} // verus!
