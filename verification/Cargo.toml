[package]
name = "maki_transcript"
version = "0.1.0"
edition = "2021"
publish = false

[dependencies]
crossterm = "=0.29.0"
flume = "=0.11.1"
mlua = { version = "=0.10.5", features = ["lua54", "vendored"] }
ratatui = { version = "=0.30.2", default-features = false }
serde_json = "=1.0.154"
unicode-width = "=0.2.3"
