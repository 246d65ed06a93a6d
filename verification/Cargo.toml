[package]
name = "stt_mg"
version = "0.1.0"
edition = "2021"
publish = false

[dependencies]
clap = { version = "4", features = ["derive"] }
config = "0.15"
cpal = "0.17"
env_logger = "0.11"
log = "0.4"
ndarray = { version = "0.17", features = ["serde"] }
rayon = "1"
ron = "0.12"
rubato = "0.16"
serde = { version = "1", features = ["derive"] }
tokio = { version = "1", features = ["full"] }
wavers = { version = "1.5", features = ["ndarray"] }
