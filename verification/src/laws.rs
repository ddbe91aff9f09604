//! The laws of the segmentation state machine, proved over whole runs.

use vstd::prelude::*;

use crate::config::Config;
use crate::engine::classify;
use crate::engine::crossing_cap;
use crate::engine::initial_model;
use crate::engine::lemma_cap_exceeds_chunk;
use crate::engine::lookback_seq;
use crate::engine::model_inv;
use crate::engine::step;
use crate::engine::EngineModel;
use crate::engine::State;

verus! {

/// One scored chunk of a run: the samples and the probability the scorer
/// assigned to them.
pub ghost struct ScoredChunk {
    /// The chunk's samples.
    pub chunk: Seq<i16>,
    /// Its speech probability, on the probability scale.
    pub prob: int,
}

/// What a whole run leaves behind: the engine's final value and every
/// segment it emitted, in emission order.
pub ghost struct RunResult {
    /// The engine's value after the last chunk.
    pub model: EngineModel,
    /// The emitted segments, oldest first.
    pub emitted: Seq<Seq<i16>>,
}

/// Feeding a sequence of scored chunks through the state machine, one
/// [`step`] per chunk, collecting every emitted segment in order.
pub open spec fn run(cfg: Config, m: EngineModel, inputs: Seq<ScoredChunk>) -> RunResult
    decreases inputs.len(),
{
    if inputs.len() == 0 {
        RunResult { model: m, emitted: Seq::empty() }
    } else {
        let first = step(cfg, m, inputs[0].chunk, inputs[0].prob);
        let rest = run(cfg, first.model, inputs.drop_first());
        RunResult {
            model: rest.model,
            emitted: match first.emitted {
                Some(s) => seq![s] + rest.emitted,
                None => rest.emitted,
            },
        }
    }
}

/// Hysteresis: on a stream whose probabilities never exceed the threshold,
/// the engine stays in `NoSpeech` and emits no segment at all.
pub proof fn lemma_hysteresis(cfg: Config, m: EngineModel, inputs: Seq<ScoredChunk>)
    requires
        m.state is NoSpeech,
        m.buffer.len() == 0,
        forall|i: int| 0 <= i < inputs.len() ==> !classify(cfg, #[trigger] inputs[i].prob),
    ensures
        run(cfg, m, inputs).emitted.len() == 0,
        run(cfg, m, inputs).model.state is NoSpeech,
        run(cfg, m, inputs).model.buffer.len() == 0,
    decreases inputs.len(),
{
    if inputs.len() > 0 {
        let first = step(cfg, m, inputs[0].chunk, inputs[0].prob);
        lemma_hysteresis(cfg, first.model, inputs.drop_first());
    }
}

/// Pre-roll inclusion: a silence chunk, two speech chunks whose combined
/// duration reaches the minimum, and a closing silence chunk yield exactly
/// one segment, which carries the pre-roll chunk and the trailing chunk:
/// `c1 + c2 + c3 + c4`.
pub proof fn lemma_pre_roll(
    cfg: Config,
    c1: ScoredChunk,
    c2: ScoredChunk,
    c3: ScoredChunk,
    c4: ScoredChunk,
)
    requires
        cfg.max_segment_duration_secs is Some ==> c1.chunk.len() + c2.chunk.len()
            + c3.chunk.len() + c4.chunk.len() < cfg.max_samples(),
        !classify(cfg, c1.prob),
        classify(cfg, c2.prob),
        classify(cfg, c3.prob),
        !classify(cfg, c4.prob),
        cfg.min_samples() <= c2.chunk.len() + c3.chunk.len(),
    ensures
        run(cfg, initial_model(), seq![c1, c2, c3, c4]).emitted =~~= seq![
            c1.chunk + c2.chunk + c3.chunk + c4.chunk,
        ],
        run(cfg, initial_model(), seq![c1, c2, c3, c4]).model.state is NoSpeech,
{
    let inputs = seq![c1, c2, c3, c4];
    let m0 = initial_model();
    assert(inputs[0] == c1);
    let s1 = step(cfg, m0, c1.chunk, c1.prob);
    let t1 = seq![c2, c3, c4];
    assert(inputs.drop_first() =~= t1);
    assert(t1[0] == c2);
    let s2 = step(cfg, s1.model, c2.chunk, c2.prob);
    let t2 = seq![c3, c4];
    assert(t1.drop_first() =~= t2);
    assert(t2[0] == c3);
    let s3 = step(cfg, s2.model, c3.chunk, c3.prob);
    let t3 = seq![c4];
    assert(t2.drop_first() =~= t3);
    assert(t3[0] == c4);
    let s4 = step(cfg, s3.model, c4.chunk, c4.prob);
    let t4 = Seq::<ScoredChunk>::empty();
    assert(t3.drop_first() =~= t4);

    assert(s1.emitted is None && s1.model.lookback == Some(c1.chunk));
    assert(s2.emitted is None && s2.model.buffer =~= c1.chunk + c2.chunk);
    assert(s3.emitted is None && s3.model.buffer =~= c1.chunk + c2.chunk + c3.chunk);
    assert(s3.model.buffer.len() >= cfg.min_samples());
    let segment = c1.chunk + c2.chunk + c3.chunk + c4.chunk;
    assert(s4.emitted matches Some(s) && s =~= segment);
    assert(s4.model.state is NoSpeech);

    let r4 = run(cfg, s4.model, t4);
    assert(r4.emitted == Seq::<Seq<i16>>::empty() && r4.model == s4.model);
    let r3 = run(cfg, s3.model, t3);
    assert(r3.emitted =~~= seq![segment] && r3.model == s4.model);
    let r2 = run(cfg, s2.model, t2);
    assert(r2.emitted =~~= seq![segment] && r2.model == s4.model);
    let r1 = run(cfg, s1.model, t1);
    assert(r1.emitted =~~= seq![segment] && r1.model == s4.model);
    let r0 = run(cfg, m0, inputs);
    assert(r0.emitted =~~= seq![segment] && r0.model == s4.model);
}

/// Min-duration override, first half: while the accumulated speech is still
/// shorter than the minimum, no flush happens whatever the scorer reports —
/// in particular not on a low-probability chunk; the chunk is appended and
/// the engine stays in `HasSpeech`.
pub proof fn lemma_min_duration_override(cfg: Config, m: EngineModel, chunk: Seq<i16>, prob: int)
    requires
        m.state is HasSpeech,
        m.buffer.len() < cfg.min_samples(),
        !crossing_cap(cfg, m, chunk.len() as int),
    ensures
        step(cfg, m, chunk, prob).emitted is None,
        step(cfg, m, chunk, prob).model.state is HasSpeech,
        step(cfg, m, chunk, prob).model.buffer == m.buffer + chunk,
{
}

/// Min-duration override, second half: once the accumulated duration has
/// reached the minimum, a low-probability chunk does flush, the flushed
/// segment carrying that trailing chunk.
pub proof fn lemma_flush_after_min_duration(cfg: Config, m: EngineModel, chunk: Seq<i16>, prob: int)
    requires
        m.state is HasSpeech,
        m.buffer.len() >= cfg.min_samples(),
        !classify(cfg, prob),
        !crossing_cap(cfg, m, chunk.len() as int),
    ensures
        step(cfg, m, chunk, prob).emitted == Some(m.buffer + chunk),
        step(cfg, m, chunk, prob).model.state is NoSpeech,
        step(cfg, m, chunk, prob).model.buffer.len() == 0,
{
}

/// Idempotent buffer reuse: whenever a step emits a segment, it leaves the
/// buffer empty, so the next segment starts from nothing.
pub proof fn lemma_flush_clears_buffer(cfg: Config, m: EngineModel, chunk: Seq<i16>, prob: int)
    ensures
        step(cfg, m, chunk, prob).emitted is Some ==> step(
            cfg,
            m,
            chunk,
            prob,
        ).model.buffer.len() == 0,
{
}

/// The forced cut itself: when appending the chunk would reach the cap, the
/// step emits the buffer, any pre-roll and the chunk, and resets the engine
/// to its initial value.
pub proof fn lemma_forced_cut_step(cfg: Config, m: EngineModel, chunk: Seq<i16>, prob: int)
    requires
        crossing_cap(cfg, m, chunk.len() as int),
    ensures
        step(cfg, m, chunk, prob).emitted == Some(m.buffer + lookback_seq(m.lookback) + chunk),
        step(cfg, m, chunk, prob).model == initial_model(),
{
}

/// A speech run that reaches the cap: starting inside a segment, on a stream
/// of speech chunks long enough to reach the cap, at least one segment is
/// emitted, and the first one ends at or just past the cap boundary.
proof fn lemma_speech_run_reaches_cap(cfg: Config, m: EngineModel, inputs: Seq<ScoredChunk>)
    requires
        cfg.valid(),
        cfg.max_segment_duration_secs is Some,
        model_inv(cfg, m),
        m.state is HasSpeech,
        forall|i: int| 0 <= i < inputs.len() ==> classify(cfg, #[trigger] inputs[i].prob),
        forall|i: int|
            0 <= i < inputs.len() ==> (#[trigger] inputs[i].chunk).len() == cfg.chunk_size,
        m.buffer.len() + inputs.len() * cfg.chunk_size >= cfg.max_samples(),
    ensures
        run(cfg, m, inputs).emitted.len() >= 1,
        cfg.max_samples() <= run(cfg, m, inputs).emitted[0].len() < cfg.max_samples()
            + cfg.chunk_size,
    decreases inputs.len(),
{
    if inputs.len() == 0 {
        assert(false);
    } else {
        let first = step(cfg, m, inputs[0].chunk, inputs[0].prob);
        let tail = inputs.drop_first();
        if crossing_cap(cfg, m, inputs[0].chunk.len() as int) {
            assert(run(cfg, m, inputs).emitted[0] == m.buffer + lookback_seq(m.lookback)
                + inputs[0].chunk);
        } else {
            assert((inputs.len() - 1) * cfg.chunk_size == inputs.len() * cfg.chunk_size
                - cfg.chunk_size) by (nonlinear_arith);
            lemma_speech_run_reaches_cap(cfg, first.model, tail);
        }
    }
}

/// Max-duration forced cut: with a cap configured, an unbroken all-speech
/// stream whose total duration reaches the cap forces a segment out, and
/// that first segment ends at or just past the cap boundary even though the
/// scorer never reported non-speech.
pub proof fn lemma_max_duration_forced_cut(cfg: Config, inputs: Seq<ScoredChunk>)
    requires
        cfg.valid(),
        cfg.max_segment_duration_secs is Some,
        inputs.len() >= 1,
        forall|i: int| 0 <= i < inputs.len() ==> classify(cfg, #[trigger] inputs[i].prob),
        forall|i: int|
            0 <= i < inputs.len() ==> (#[trigger] inputs[i].chunk).len() == cfg.chunk_size,
        inputs.len() * cfg.chunk_size >= cfg.max_samples(),
    ensures
        run(cfg, initial_model(), inputs).emitted.len() >= 1,
        cfg.max_samples() <= run(cfg, initial_model(), inputs).emitted[0].len()
            < cfg.max_samples() + cfg.chunk_size,
{
    let m0 = initial_model();
    let first = step(cfg, m0, inputs[0].chunk, inputs[0].prob);
    let tail = inputs.drop_first();
    lemma_cap_exceeds_chunk(cfg);
    assert(first.model.buffer =~= inputs[0].chunk);
    assert((inputs.len() - 1) * cfg.chunk_size == inputs.len() * cfg.chunk_size - cfg.chunk_size)
        by (nonlinear_arith);
    lemma_speech_run_reaches_cap(cfg, first.model, tail);
}

/// A half-open block `[a, b)` of chunk indices, non-empty and inside the run.
pub open spec fn range_ok(inputs: Seq<ScoredChunk>, bounds: (int, int)) -> bool {
    0 <= bounds.0 && bounds.0 < bounds.1 && bounds.1 <= inputs.len()
}

/// The samples of the chunks with indices in `[a, b)`, concatenated in
/// arrival order.
pub open spec fn flat_range(inputs: Seq<ScoredChunk>, a: int, b: int) -> Seq<i16>
    decreases b - a,
{
    if a < 0 || b <= a || b > inputs.len() {
        Seq::empty()
    } else {
        inputs[a].chunk + flat_range(inputs, a + 1, b)
    }
}

/// The samples an engine value still holds and would place at the front of
/// its next segment: the retained pre-roll followed by the buffer.
pub open spec fn pending(m: EngineModel) -> Seq<i16> {
    lookback_seq(m.lookback) + m.buffer
}

/// The structural part of the engine invariant that the ordering proof
/// needs: between segments the buffer is empty, inside a segment no pre-roll
/// is retained.
pub open spec fn weak_inv(m: EngineModel) -> bool {
    &&& (m.state is NoSpeech ==> m.buffer.len() == 0)
    &&& (m.state is HasSpeech ==> m.lookback is None)
}

/// The ordering witness: every emitted segment is the concatenation of one
/// block of consecutive input chunks, the blocks are disjoint and in arrival
/// order, and only the first segment may begin with samples (`carry`) that
/// the engine already held when the run began.
pub open spec fn ordered_cuts(
    carry: Seq<i16>,
    inputs: Seq<ScoredChunk>,
    bounds: Seq<(int, int)>,
    emitted: Seq<Seq<i16>>,
) -> bool {
    &&& bounds.len() == emitted.len()
    &&& (forall|i: int| 0 <= i < bounds.len() ==> range_ok(inputs, #[trigger] bounds[i]))
    &&& (forall|i: int|
        0 <= i && i + 1 < bounds.len() ==> (#[trigger] bounds[i]).1 <= bounds[i + 1].0)
    &&& (forall|i: int|
        1 <= i < emitted.len() ==> #[trigger] emitted[i] == flat_range(
            inputs,
            bounds[i].0,
            bounds[i].1,
        ))
    &&& (emitted.len() > 0 ==> (emitted[0] == flat_range(inputs, bounds[0].0, bounds[0].1) || (
    bounds[0].0 == 0 && emitted[0] == carry + flat_range(inputs, 0, bounds[0].1))))
}

/// Dropping the first chunk shifts every block of the remaining run by one.
proof fn lemma_flat_range_shift(inputs: Seq<ScoredChunk>, a: int, b: int)
    requires
        inputs.len() > 0,
        0 <= a,
    ensures
        flat_range(inputs.drop_first(), a, b) == flat_range(inputs, a + 1, b + 1),
    decreases b - a,
{
    let tail = inputs.drop_first();
    if b <= a || b > tail.len() {
        assert(flat_range(tail, a, b) =~= flat_range(inputs, a + 1, b + 1));
    } else {
        assert(tail[a] == inputs[a + 1]);
        lemma_flat_range_shift(inputs, a + 1, b);
    }
}

/// The inductive heart of the ordering law, generalized over the engine
/// value at the start of the run.
#[verifier::rlimit(100)]
#[verifier::spinoff_prover]
proof fn lemma_ordering_aux(cfg: Config, m: EngineModel, inputs: Seq<ScoredChunk>)
    requires
        weak_inv(m),
    ensures
        exists|bounds: Seq<(int, int)>|
            ordered_cuts(pending(m), inputs, bounds, run(cfg, m, inputs).emitted),
    decreases inputs.len(),
{
    let result = run(cfg, m, inputs);
    if inputs.len() == 0 {
        let bounds = Seq::<(int, int)>::empty();
        assert(ordered_cuts(pending(m), inputs, bounds, result.emitted));
    } else {
        let chunk = inputs[0].chunk;
        let first = step(cfg, m, chunk, inputs[0].prob);
        let tail = inputs.drop_first();
        assert(weak_inv(first.model));
        lemma_ordering_aux(cfg, first.model, tail);
        let rest = run(cfg, first.model, tail);
        let tb = choose|tb: Seq<(int, int)>|
            ordered_cuts(pending(first.model), tail, tb, run(cfg, first.model, tail).emitted);
        assert(ordered_cuts(pending(first.model), tail, tb, rest.emitted));
        let shifted = Seq::new(tb.len(), |i: int| (tb[i].0 + 1, tb[i].1 + 1));

        if first.emitted is Some {
            let segment = first.emitted->Some_0;
            assert(m.state is HasSpeech && m.lookback is None);
            assert(segment =~= pending(m) + chunk);
            assert(pending(first.model) =~= Seq::<i16>::empty());
            assert(result.emitted == seq![segment] + rest.emitted);
            let bounds = seq![(0int, 1int)] + shifted;
            assert(flat_range(inputs, 1, 1) =~= Seq::<i16>::empty());
            assert(flat_range(inputs, 0, 1) =~= chunk);
            assert(result.emitted[0] == pending(m) + flat_range(inputs, 0, 1));
            assert forall|i: int| 1 <= i < result.emitted.len() implies #[trigger] result
                .emitted[i] == flat_range(inputs, bounds[i].0, bounds[i].1) by {
                let r = tb[i - 1];
                lemma_flat_range_shift(inputs, r.0, r.1);
                if i == 1 {
                    if rest.emitted[0] != flat_range(tail, r.0, r.1) {
                        assert(r.0 == 0 && rest.emitted[0] == pending(first.model) + flat_range(
                            tail,
                            0,
                            r.1,
                        ));
                        assert(rest.emitted[0] =~= flat_range(tail, 0, r.1));
                    }
                }
            }
            assert(ordered_cuts(pending(m), inputs, bounds, result.emitted));
        } else {
            assert(result.emitted == rest.emitted);
            if rest.emitted.len() == 0 {
                let bounds = Seq::<(int, int)>::empty();
                assert(ordered_cuts(pending(m), inputs, bounds, result.emitted));
            } else if rest.emitted[0] == flat_range(tail, tb[0].0, tb[0].1) {
                let bounds = shifted;
                assert forall|i: int| 0 <= i < result.emitted.len() implies #[trigger] result
                    .emitted[i] == flat_range(inputs, bounds[i].0, bounds[i].1) by {
                    lemma_flat_range_shift(inputs, tb[i].0, tb[i].1);
                }
                assert(ordered_cuts(pending(m), inputs, bounds, result.emitted));
            } else {
                let b0 = tb[0].1;
                assert(tb[0].0 == 0 && rest.emitted[0] == pending(first.model) + flat_range(
                    tail,
                    0,
                    b0,
                ));
                let bounds = shifted.update(0, (0int, b0 + 1));
                lemma_flat_range_shift(inputs, 0, b0);
                assert(flat_range(inputs, 0, b0 + 1) == chunk + flat_range(tail, 0, b0));
                if m.state is NoSpeech && !classify(cfg, inputs[0].prob) {
                    assert(pending(first.model) =~= chunk);
                    assert(rest.emitted[0] =~= flat_range(inputs, 0, b0 + 1));
                } else {
                    assert(pending(first.model) =~= pending(m) + chunk);
                    assert(rest.emitted[0] =~= pending(m) + flat_range(inputs, 0, b0 + 1));
                }
                assert forall|i: int| 1 <= i < result.emitted.len() implies #[trigger] result
                    .emitted[i] == flat_range(inputs, bounds[i].0, bounds[i].1) by {
                    lemma_flat_range_shift(inputs, tb[i].0, tb[i].1);
                }
                assert(ordered_cuts(pending(m), inputs, bounds, result.emitted));
            }
        }
    }
}

/// Ordering: over any run from a fresh engine, every emitted segment is the
/// concatenation of a block of consecutive input chunks, and successive
/// segments come from disjoint blocks in arrival order — so segments leave
/// in the temporal order of their chunks, and no chunk contributes to two
/// segments.
pub proof fn lemma_ordering(cfg: Config, inputs: Seq<ScoredChunk>)
    ensures
        exists|bounds: Seq<(int, int)>|
            ordered_cuts(
                Seq::empty(),
                inputs,
                bounds,
                run(cfg, initial_model(), inputs).emitted,
            ),
{
    let m0 = initial_model();
    lemma_ordering_aux(cfg, m0, inputs);
    let bounds = choose|bounds: Seq<(int, int)>|
        ordered_cuts(pending(m0), inputs, bounds, run(cfg, m0, inputs).emitted);
    assert(pending(m0) =~= Seq::<i16>::empty());
    assert(ordered_cuts(Seq::empty(), inputs, bounds, run(cfg, m0, inputs).emitted));
}

} // verus!
