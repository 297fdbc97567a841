[package]
name = "cuberef_game_state"
version = "0.1.0"
edition = "2021"
publish = false

[dependencies]
prost = { version = "0.11", default-features = false, features = ["std"] }
uuid = { version = "1", features = ["v4"] }
tokio = { version = "1", features = ["sync", "rt", "rt-multi-thread", "time", "macros"] }
tokio-util = "0.7"
parking_lot = "0.12"
anyhow = "1"
log = "0.4"
cgmath = "0.18"
hashbrown = "0.14"
rustc-hash = "1"
