use vad_segmenter::config::Config;
use vad_segmenter::error::VadError;
use vad_segmenter::samples::convert_to_i16_vec;
use vad_segmenter::samples::i16_from_le;
use vad_segmenter::samples::next_frame;
use vad_segmenter::scorer::get_silero;
use vad_segmenter::scorer::SampleRate;
use vad_segmenter::text::storage_text;

#[test]
fn decodes_little_endian_pairs() {
    assert_eq!(i16_from_le(0x34, 0x12), 0x1234);
    assert_eq!(i16_from_le(0x00, 0x00), 0);
    assert_eq!(i16_from_le(0xFF, 0x7F), i16::MAX);
    assert_eq!(i16_from_le(0x00, 0x80), i16::MIN);
    assert_eq!(i16_from_le(0xFF, 0xFF), -1);
}

#[test]
fn converts_byte_stream_to_samples() {
    let bytes = [0x34u8, 0x12, 0xFF, 0xFF, 0x00, 0x80];
    assert_eq!(convert_to_i16_vec(&bytes), vec![0x1234, -1, i16::MIN]);
}

#[test]
fn trailing_odd_byte_is_ignored() {
    let bytes = [0x01u8, 0x00, 0x7F];
    assert_eq!(convert_to_i16_vec(&bytes), vec![1]);
    let empty: [u8; 0] = [];
    assert_eq!(convert_to_i16_vec(&empty), Vec::<i16>::new());
}

#[test]
fn frames_are_taken_in_order_and_remainder_kept() {
    // Two full 2-sample frames plus one spare byte.
    let mut bytes = vec![0x01u8, 0x00, 0x02, 0x00, 0x03, 0x00, 0xFF, 0xFF, 0xAB];
    assert_eq!(next_frame(&mut bytes, 2), Some(vec![1, 2]));
    assert_eq!(bytes, vec![0x03, 0x00, 0xFF, 0xFF, 0xAB]);
    assert_eq!(next_frame(&mut bytes, 2), Some(vec![3, -1]));
    assert_eq!(bytes, vec![0xAB]);
    assert_eq!(next_frame(&mut bytes, 2), None);
    assert_eq!(bytes, vec![0xAB]);
}

#[test]
fn chinese_text_is_stored_in_traditional_script() {
    assert_eq!(storage_text("zh", "简体字"), "簡體字");
    assert_eq!(storage_text("yue", "简体字"), "簡體字");
}

#[test]
fn other_languages_are_stored_verbatim() {
    assert_eq!(storage_text("en", "hello 简"), "hello 简");
    assert_eq!(storage_text("ja", "空"), "空");
    assert_eq!(storage_text("zh", ""), "");
}

#[test]
fn scorer_rate_follows_configuration() {
    let cfg16 = Config::new(16000, 1024, 500000, 3, None).expect("valid configuration");
    let silero = get_silero(&cfg16, "models/silero_vad.onnx").expect("supported rate");
    assert_eq!(silero.sample_rate, SampleRate::SixteenkHz);
    assert_eq!(silero.model_path, "models/silero_vad.onnx");

    let cfg8 = Config::new(8000, 256, 500000, 3, None).expect("valid configuration");
    let silero = get_silero(&cfg8, "m.onnx").expect("supported rate");
    assert_eq!(silero.sample_rate, SampleRate::EightkHz);

    let unsupported = Config {
        sample_rate: 44100,
        chunk_size: 512,
        probability_threshold: 500000,
        min_speech_duration_secs: 0,
        max_segment_duration_secs: None,
    };
    assert!(matches!(get_silero(&unsupported, "m.onnx"), Err(VadError::Configuration)));
}
