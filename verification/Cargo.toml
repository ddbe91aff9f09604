[package]
name = "vad_segmenter"
version = "0.1.0"
edition = "2021"
publish = false

[dependencies]
zhconv = "*"
hound = "*"
serde_json = "*"
tokio = { version = "*", features = ["rt-multi-thread", "macros", "io-util", "io-std"] }
tokio-stream = "*"
tokio-util = { version = "*", features = ["io"] }
rusqlite = { version = "*", features = ["bundled"] }
whisper-rs = "*"
voice_activity_detector = "*"
