[package]
name = "music_index"
version = "0.1.0"
edition = "2021"
publish = false

[dependencies]
fuzzy-cmp = { version = "=0.2.0", features = ["hybrid"] }
lofty = "=0.25.5"
macron = { version = "=0.5.2", features = ["derive", "string", "path"] }
serde = { version = "=1.0.229", features = ["derive"] }
serde_json = "=1.0.154"
tokio = { version = "=1.54.1", features = ["fs", "process", "rt", "rt-multi-thread", "macros"] }
