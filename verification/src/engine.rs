//! The segmentation engine: a hysteresis state machine over scored chunks.
//!
//! The engine consumes one chunk at a time together with its speech
//! probability, accumulates speech into a segment buffer with one chunk of
//! pre-roll, and hands back each finalized segment exactly once. The caller
//! drives the loop: it obtains chunks and probabilities from its source and
//! scorer and delivers every returned segment to its sink, so segments reach
//! the sink in chunk-arrival order.

use vstd::prelude::*;

use crate::config::Config;
use crate::error::VadError;
use crate::PROB_SCALE;

verus! {

/// Whether the engine is currently inside a speech segment.
#[derive(Clone, Copy, Debug, PartialEq, Eq, Structural)]
pub enum State {
    /// Between segments; the buffer is empty.
    NoSpeech,
    /// Inside a segment; the buffer holds its samples so far.
    HasSpeech,
}

impl State {
    /// The state that a per-chunk speech verdict maps to.
    pub fn convert(has_speech: bool) -> (s: State)
        ensures
            s == (if has_speech {
                State::HasSpeech
            } else {
                State::NoSpeech
            }),
    {
        match has_speech {
            true => State::HasSpeech,
            _ => State::NoSpeech,
        }
    }
}

/// The mathematical value of an engine: the segment buffer, the retained
/// pre-roll chunk, and the current classification.
pub ghost struct EngineModel {
    /// The samples of the segment being assembled.
    pub buffer: Seq<i16>,
    /// The most recent uncommitted non-speech chunk, kept as pre-roll.
    pub lookback: Option<Seq<i16>>,
    /// The current classification.
    pub state: State,
}

/// What one step of the state machine does: the engine's next value and the
/// segment it emits, if any.
pub ghost struct StepResult {
    /// The engine's value after the step.
    pub model: EngineModel,
    /// The finalized segment this step hands to the sink, if it flushes.
    pub emitted: Option<Seq<i16>>,
}

/// The engine's value at the start of a run: everything empty, no speech.
pub open spec fn initial_model() -> EngineModel {
    EngineModel { buffer: Seq::empty(), lookback: None, state: State::NoSpeech }
}

/// A chunk counts as speech when its probability is strictly above the
/// configured threshold.
pub open spec fn classify(cfg: Config, probability: int) -> bool {
    probability > cfg.probability_threshold
}

/// The pre-roll chunk as a sequence; empty when none is retained.
pub open spec fn lookback_seq(lookback: Option<Seq<i16>>) -> Seq<i16> {
    match lookback {
        Some(s) => s,
        None => Seq::empty(),
    }
}

/// The forced-cut test: a cap is configured, the buffer is non-empty, and
/// appending the current chunk would reach the cap.
pub open spec fn crossing_cap(cfg: Config, m: EngineModel, chunk_len: int) -> bool {
    &&& cfg.max_segment_duration_secs is Some
    &&& m.buffer.len() > 0
    &&& m.buffer.len() + chunk_len >= cfg.max_samples()
}

/// In the `HasSpeech` state a verdict of silence is overridden while the
/// accumulated duration is still below the minimum, so short dips in the
/// probability never fragment an utterance.
pub open spec fn keep_speech(cfg: Config, m: EngineModel, has_speech: bool) -> bool {
    has_speech || m.buffer.len() < cfg.min_samples()
}

/// One step of the segmentation state machine, exactly as `process` performs
/// it on a chunk with the given probability.
pub open spec fn step(cfg: Config, m: EngineModel, chunk: Seq<i16>, probability: int) -> StepResult {
    let has_speech = classify(cfg, probability);
    if crossing_cap(cfg, m, chunk.len() as int) {
        StepResult {
            model: EngineModel { buffer: Seq::empty(), lookback: None, state: State::NoSpeech },
            emitted: Some(m.buffer + lookback_seq(m.lookback) + chunk),
        }
    } else {
        match m.state {
            State::NoSpeech => {
                if has_speech {
                    StepResult {
                        model: EngineModel {
                            buffer: m.buffer + lookback_seq(m.lookback) + chunk,
                            lookback: None,
                            state: State::HasSpeech,
                        },
                        emitted: None,
                    }
                } else {
                    StepResult {
                        model: EngineModel {
                            buffer: m.buffer,
                            lookback: Some(chunk),
                            state: State::NoSpeech,
                        },
                        emitted: None,
                    }
                }
            },
            State::HasSpeech => {
                if keep_speech(cfg, m, has_speech) {
                    StepResult {
                        model: EngineModel {
                            buffer: m.buffer + chunk,
                            lookback: m.lookback,
                            state: State::HasSpeech,
                        },
                        emitted: None,
                    }
                } else {
                    StepResult {
                        model: EngineModel {
                            buffer: Seq::empty(),
                            lookback: m.lookback,
                            state: State::NoSpeech,
                        },
                        emitted: Some(m.buffer + chunk),
                    }
                }
            },
        }
    }
}

/// The invariant every reachable engine value satisfies: between segments the
/// buffer is empty, inside a segment no pre-roll is retained, and with a cap
/// configured the buffer stays strictly below it.
pub open spec fn model_inv(cfg: Config, m: EngineModel) -> bool {
    &&& (m.state is NoSpeech ==> m.buffer.len() == 0)
    &&& (m.state is HasSpeech ==> m.buffer.len() > 0 && m.lookback is None)
    &&& (m.lookback matches Some(pre_roll) ==> pre_roll.len() == cfg.chunk_size)
    &&& (cfg.max_segment_duration_secs is Some ==> m.buffer.len() < cfg.max_samples())
}

/// With a valid configuration the cap, when one is set, is at least one
/// second of samples, which exceeds two of any trained chunk size.
pub proof fn lemma_cap_exceeds_chunk(cfg: Config)
    requires
        cfg.valid(),
        cfg.max_segment_duration_secs is Some,
    ensures
        cfg.max_samples() >= cfg.sample_rate,
        cfg.max_samples() > 2 * cfg.chunk_size,
{
    let secs = cfg.max_segment_duration_secs->Some_0;
    assert(secs * cfg.sample_rate >= 1 * cfg.sample_rate) by (nonlinear_arith)
        requires
            secs >= 1,
            cfg.sample_rate >= 0,
    ;
}

/// The view of an optionally returned segment.
pub open spec fn opt_view(o: Option<Vec<i16>>) -> Option<Seq<i16>> {
    match o {
        Some(v) => Some(v@),
        None => None,
    }
}

/// The segmentation engine. One instance handles exactly one stream: feed
/// every chunk in arrival order through [`Engine::process`], then call
/// [`Engine::finish`] once when the source is exhausted.
pub struct Engine {
    config: Config,
    buffer: Vec<i16>,
    lookback: Option<Vec<i16>>,
    state: State,
}

impl Engine {
    /// The configuration this engine was built with.
    pub closed spec fn cfg(self) -> Config {
        self.config
    }

    /// The engine's current mathematical value.
    pub closed spec fn model(self) -> EngineModel {
        EngineModel {
            buffer: self.buffer@,
            lookback: match self.lookback {
                Some(v) => Some(v@),
                None => None,
            },
            state: self.state,
        }
    }

    /// A well-formed engine: a valid configuration and a reachable value.
    pub open spec fn wf(self) -> bool {
        self.cfg().valid() && model_inv(self.cfg(), self.model())
    }

    /// Builds an engine for one streaming run, rejecting an invalid
    /// configuration.
    pub fn new(config: Config) -> (r: Result<Engine, VadError>)
        ensures
            config.valid() ==> (r matches Ok(e) && e.wf() && e.cfg() == config && e.model()
                == initial_model()),
            !config.valid() ==> r == Err::<Engine, VadError>(VadError::Configuration),
    {
        if config.is_valid() {
            proof {
                if config.max_segment_duration_secs is Some {
                    lemma_cap_exceeds_chunk(config);
                }
            }
            Ok(Engine { config, buffer: Vec::new(), lookback: None, state: State::NoSpeech })
        } else {
            Err(VadError::Configuration)
        }
    }

    /// Accepts the next chunk in order, already scored with its speech
    /// probability, and returns the finalized segment if this chunk flushes
    /// one. The new engine value and the returned segment are exactly those
    /// of one [`step`] of the state machine.
    pub fn process(&mut self, chunk: Vec<i16>, probability: u32) -> (emitted: Option<Vec<i16>>)
        requires
            old(self).wf(),
            chunk@.len() == old(self).cfg().chunk_size,
            probability <= PROB_SCALE,
        ensures
            final(self).wf(),
            final(self).cfg() == old(self).cfg(),
            final(self).model() == step(
                old(self).cfg(),
                old(self).model(),
                chunk@,
                probability as int,
            ).model,
            opt_view(emitted) == step(
                old(self).cfg(),
                old(self).model(),
                chunk@,
                probability as int,
            ).emitted,
    {
        proof {
            if self.config.max_segment_duration_secs is Some {
                lemma_cap_exceeds_chunk(self.config);
            }
        }
        let has_speech = probability > self.config.probability_threshold;

        let cross: bool;
        match self.config.max_segment_duration_secs {
            Some(secs) => {
                let max_samples: u64 = (secs as u64) * (self.config.sample_rate as u64);
                cross = self.buffer.len() > 0 && (self.buffer.len() as u64) + (chunk.len() as u64)
                    >= max_samples;
            },
            None => {
                cross = false;
            },
        }

        if cross {
            let mut segment: Vec<i16> = Vec::new();
            core::mem::swap(&mut segment, &mut self.buffer);
            match self.lookback.take() {
                Some(mut pre_roll) => segment.append(&mut pre_roll),
                None => {},
            }
            let mut current = chunk;
            segment.append(&mut current);
            self.state = State::NoSpeech;
            return Some(segment);
        }

        match self.state {
            State::NoSpeech => {
                if has_speech {
                    match self.lookback.take() {
                        Some(mut pre_roll) => self.buffer.append(&mut pre_roll),
                        None => {},
                    }
                    let mut current = chunk;
                    self.buffer.append(&mut current);
                } else {
                    self.lookback = Some(chunk);
                }
                self.state = State::convert(has_speech);
                None
            },
            State::HasSpeech => {
                let min_samples: u64 = (self.config.min_speech_duration_secs as u64) * (
                self.config.sample_rate as u64);
                let keep = has_speech || (self.buffer.len() as u64) < min_samples;
                let mut current = chunk;
                self.buffer.append(&mut current);
                self.state = State::convert(keep);
                if keep {
                    None
                } else {
                    let mut segment: Vec<i16> = Vec::new();
                    core::mem::swap(&mut segment, &mut self.buffer);
                    Some(segment)
                }
            },
        }
    }

    /// Called once when the chunk source is exhausted: flushes a non-empty
    /// buffer unconditionally, so a trailing segment is never lost, and
    /// leaves the engine back at its initial value.
    pub fn finish(&mut self) -> (emitted: Option<Vec<i16>>)
        requires
            old(self).wf(),
        ensures
            final(self).wf(),
            final(self).cfg() == old(self).cfg(),
            final(self).model() == initial_model(),
            old(self).model().buffer.len() > 0 ==> (emitted matches Some(segment) && segment@
                == old(self).model().buffer),
            old(self).model().buffer.len() == 0 ==> emitted is None,
    {
        proof {
            if self.config.max_segment_duration_secs is Some {
                lemma_cap_exceeds_chunk(self.config);
            }
        }
        let emitted = if self.buffer.len() > 0 {
            let mut segment: Vec<i16> = Vec::new();
            core::mem::swap(&mut segment, &mut self.buffer);
            Some(segment)
        } else {
            None
        };
        self.lookback = None;
        self.state = State::NoSpeech;
        proof {
            assert(self.buffer@ =~= Seq::<i16>::empty());
        }
        emitted
    }
}

} // verus!
