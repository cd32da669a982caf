[package]
name = "wows_player_stats"
version = "0.1.0"
edition = "2021"
publish = false

[dependencies]
tokio = { version = "*", features = ["rt-multi-thread", "macros", "time"] }
reqwest = { version = "*", default-features = false }
async-channel = "*"
serde = "*"
serde_derive = "*"
serde_json = "*"
stream_throttle = "*"
thiserror = "*"
