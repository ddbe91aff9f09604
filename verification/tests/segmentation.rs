use vad_segmenter::config::Config;
use vad_segmenter::engine::Engine;
use vad_segmenter::engine::State;
use vad_segmenter::error::VadError;
use vad_segmenter::PROB_SCALE;

const SPEECH: u32 = 900000;
const SILENCE: u32 = 100000;

fn chunk_of(value: i16, len: usize) -> Vec<i16> {
    vec![value; len]
}

fn engine(config: Config) -> Engine {
    Engine::new(config).expect("valid configuration")
}

fn cfg_no_cap(min_secs: u32) -> Config {
    Config::new(16000, 512, 500000, min_secs, None).expect("valid configuration")
}

#[test]
fn probability_scale_is_a_million() {
    assert_eq!(PROB_SCALE, 1_000_000);
}

#[test]
fn all_silence_emits_nothing() {
    let mut engine = engine(cfg_no_cap(0));
    for _ in 0..10 {
        assert!(engine.process(chunk_of(7, 512), SILENCE).is_none());
    }
    assert!(engine.finish().is_none());
}

#[test]
fn threshold_is_strict() {
    // A probability exactly at the threshold is not speech.
    let mut engine = engine(cfg_no_cap(0));
    for _ in 0..4 {
        assert!(engine.process(chunk_of(1, 512), 500000).is_none());
    }
    assert!(engine.finish().is_none());
}

#[test]
fn pre_roll_and_trailing_chunk_are_included() {
    let mut engine = engine(cfg_no_cap(0));
    assert!(engine.process(chunk_of(1, 512), SILENCE).is_none());
    assert!(engine.process(chunk_of(2, 512), SPEECH).is_none());
    assert!(engine.process(chunk_of(3, 512), SPEECH).is_none());
    let segment = engine.process(chunk_of(4, 512), SILENCE).expect("flush");
    let mut expected = chunk_of(1, 512);
    expected.extend(chunk_of(2, 512));
    expected.extend(chunk_of(3, 512));
    expected.extend(chunk_of(4, 512));
    assert_eq!(segment, expected);
    assert!(engine.finish().is_none());
}

#[test]
fn only_latest_silence_chunk_is_pre_roll() {
    let mut engine = engine(cfg_no_cap(0));
    assert!(engine.process(chunk_of(1, 512), SILENCE).is_none());
    assert!(engine.process(chunk_of(2, 512), SILENCE).is_none());
    assert!(engine.process(chunk_of(3, 512), SPEECH).is_none());
    let segment = engine.process(chunk_of(4, 512), SILENCE).expect("flush");
    let mut expected = chunk_of(2, 512);
    expected.extend(chunk_of(3, 512));
    expected.extend(chunk_of(4, 512));
    assert_eq!(segment, expected);
}

#[test]
fn speech_without_pre_roll_starts_segment_alone() {
    let mut engine = engine(cfg_no_cap(0));
    assert!(engine.process(chunk_of(5, 512), SPEECH).is_none());
    let segment = engine.process(chunk_of(6, 512), SILENCE).expect("flush");
    let mut expected = chunk_of(5, 512);
    expected.extend(chunk_of(6, 512));
    assert_eq!(segment, expected);
}

#[test]
fn min_duration_suppresses_early_flush() {
    // One second minimum: 16000 samples, i.e. more than 31 chunks of 512.
    let mut engine = engine(cfg_no_cap(1));
    assert!(engine.process(chunk_of(1, 512), SPEECH).is_none());
    // Silence while the run is short is overridden: no flush.
    for _ in 0..30 {
        assert!(engine.process(chunk_of(2, 512), SILENCE).is_none());
    }
    // Buffer now holds 31 * 512 = 15872 < 16000 samples: still overridden.
    assert!(engine.process(chunk_of(3, 512), SILENCE).is_none());
    // Buffer now holds 16384 >= 16000 samples: the next silence flushes.
    let segment = engine.process(chunk_of(4, 512), SILENCE).expect("flush");
    assert_eq!(segment.len(), 33 * 512);
    assert_eq!(segment[0], 1);
    assert_eq!(segment[segment.len() - 1], 4);
}

#[test]
fn forced_cut_at_max_duration() {
    // One second cap: 16000 samples; chunks of 1024.
    let config = Config::new(16000, 1024, 500000, 0, Some(1)).expect("valid configuration");
    let mut engine = engine(config);
    let mut segments: Vec<(usize, Vec<i16>)> = Vec::new();
    for i in 0..32 {
        if let Some(segment) = engine.process(chunk_of(i as i16, 1024), SPEECH) {
            segments.push((i, segment));
        }
    }
    // 15 * 1024 = 15360; appending the 16th chunk reaches 16384 >= 16000.
    assert_eq!(segments.len(), 2);
    assert_eq!(segments[0].0, 15);
    assert_eq!(segments[0].1.len(), 16 * 1024);
    assert_eq!(segments[1].0, 31);
    assert_eq!(segments[1].1.len(), 16 * 1024);
    // The segments carry consecutive chunks in arrival order, none shared.
    for c in 0..16 {
        assert_eq!(segments[0].1[c * 1024], c as i16);
        assert_eq!(segments[1].1[c * 1024], (16 + c) as i16);
    }
    assert!(engine.finish().is_none());
}

#[test]
fn end_of_stream_flushes_trailing_segment() {
    let mut engine = engine(cfg_no_cap(1));
    assert!(engine.process(chunk_of(1, 512), SPEECH).is_none());
    assert!(engine.process(chunk_of(2, 512), SPEECH).is_none());
    let segment = engine.finish().expect("trailing flush");
    let mut expected = chunk_of(1, 512);
    expected.extend(chunk_of(2, 512));
    assert_eq!(segment, expected);
    assert!(engine.finish().is_none());
}

#[test]
fn buffer_is_reused_cleanly_between_segments() {
    let mut engine = engine(cfg_no_cap(0));
    assert!(engine.process(chunk_of(1, 512), SPEECH).is_none());
    let first = engine.process(chunk_of(2, 512), SILENCE).expect("flush");
    assert_eq!(first.len(), 2 * 512);
    // The next segment must contain nothing of the first.
    assert!(engine.process(chunk_of(3, 512), SPEECH).is_none());
    let second = engine.process(chunk_of(4, 512), SILENCE).expect("flush");
    let mut expected = chunk_of(3, 512);
    expected.extend(chunk_of(4, 512));
    assert_eq!(second, expected);
}

#[test]
fn segments_preserve_arrival_order() {
    let mut engine = engine(cfg_no_cap(0));
    let mut emitted: Vec<Vec<i16>> = Vec::new();
    let score = [SPEECH, SILENCE, SILENCE, SPEECH, SPEECH, SILENCE, SPEECH, SILENCE];
    for (i, p) in score.iter().enumerate() {
        if let Some(segment) = engine.process(chunk_of(i as i16, 512), *p) {
            emitted.push(segment);
        }
    }
    if let Some(segment) = engine.finish() {
        emitted.push(segment);
    }
    assert_eq!(emitted.len(), 3);
    // chunk 0 speech, chunk 1 trailing; chunk 2 pre-roll, 3..4 speech, 5 trailing;
    // chunk 6 speech (no pre-roll retained after a flush), 7 trailing.
    let firsts: Vec<i16> = emitted.iter().map(|s| s[0]).collect();
    assert_eq!(firsts, vec![0, 2, 6]);
    let lens: Vec<usize> = emitted.iter().map(|s| s.len()).collect();
    assert_eq!(lens, vec![2 * 512, 4 * 512, 2 * 512]);
}

#[test]
fn invalid_configurations_are_rejected() {
    assert!(matches!(Config::new(44100, 512, 500000, 0, None), Err(VadError::Configuration)));
    assert!(matches!(Config::new(16000, 100, 500000, 0, None), Err(VadError::Configuration)));
    assert!(matches!(Config::new(8000, 1024, 500000, 0, None), Err(VadError::Configuration)));
    assert!(matches!(Config::new(16000, 512, 1000001, 0, None), Err(VadError::Configuration)));
    assert!(matches!(Config::new(16000, 512, 500000, 0, Some(0)), Err(VadError::Configuration)));
    assert!(Config::new(8000, 256, 500000, 3, Some(10)).is_ok());
}

#[test]
fn engine_rejects_invalid_configuration() {
    let bad = Config {
        sample_rate: 44100,
        chunk_size: 512,
        probability_threshold: 500000,
        min_speech_duration_secs: 0,
        max_segment_duration_secs: None,
    };
    assert!(matches!(Engine::new(bad), Err(VadError::Configuration)));
}

#[test]
fn state_convert_maps_verdicts() {
    assert_eq!(State::convert(true), State::HasSpeech);
    assert_eq!(State::convert(false), State::NoSpeech);
}
