[package]
name = "pgnparse"
version = "0.1.0"
edition = "2021"
publish = false

[dependencies]
shakmaty = "0.17"
pgn-reader = "0.16"
rand = "0.8"
serde = { version = "1", features = ["derive"] }
serde_json = "1"
log = "0.4"
env_logger = "0.8"
