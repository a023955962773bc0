[package]
name = "system_audio"
version = "0.1.0"
edition = "2021"
publish = false

[dependencies]
anyhow = "1"
cpal = "0.15"
futures-channel = "0.3"
futures-util = "0.3"
libpulse-binding = "2"
libpulse-simple-binding = "2"
log = "0.4"
tokio = { version = "1", features = ["rt", "sync"] }
