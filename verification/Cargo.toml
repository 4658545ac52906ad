[package]
name = "kotoma"
version = "0.1.0"
edition = "2021"
publish = false

[dependencies]
anyhow = "=1.0.104"
chrono = "=0.4.45"
clap = { version = "=4.6.7", features = ["derive"] }
cpal = { version = "=0.18.2", features = ["pulseaudio"] }
crossbeam-channel = "=0.5.17"
crossterm = "=0.28.1"
dirs = "=5.0.1"
ratatui = { version = "=0.29.0", features = ["unstable-rendered-line-info"] }
rubato = "=0.16.2"
serde = { version = "=1.0.229", features = ["derive"] }
serde_json = "=1.0.154"
toml = "=0.8.23"
toml_edit = "=0.22.27"
tracing = "=0.1.44"
tracing-subscriber = { version = "=0.3.23", features = ["env-filter"] }
ureq = { version = "=2.12.1", features = ["json"] }
webrtc-vad = "=0.4.0"
whisper-rs = { version = "=0.16.0", features = ["tracing_backend"] }
