[package]
name = "zeroclaw"
version = "0.7.1"
edition = "2021"
publish = false

[dependencies]
anyhow = "1"
chrono = "0.4"
libc = "0.2"
parking_lot = "0.12"
serde = { version = "1", features = ["derive"] }
serde_json = "1"
tokio = { version = "1", features = ["fs", "time", "rt-multi-thread", "macros"] }
toml = "0.8"
tracing = "0.1"
uuid = { version = "1", features = ["v4"] }
