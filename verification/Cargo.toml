[package]
name = "nyarix"
version = "0.1.0"
edition = "2021"
publish = false

[dependencies]
semver = { version = "1", features = ["serde"] }
uuid = { version = "1", features = ["v7"] }
chrono = { version = "0.4", features = ["serde"] }
ed25519-dalek = { version = "2", features = ["rand_core"] }
rand = "0.8"
bytes = "1"
tar = "0.4"
zstd = "0.13"
serde = { version = "1", features = ["derive"] }
serde_json = "1"
toml = "0.8"
thiserror = "1"
tokio = { version = "1", features = ["full"] }
tokio-util = "0.7"
tracing = "0.1"
tracing-subscriber = "0.3"
bitflags = { version = "2", features = ["serde"] }
dashmap = "6"
parking_lot = "0.12"
