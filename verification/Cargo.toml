[package]
name = "aetherium"
version = "0.1.0"
edition = "2021"
publish = false

[dependencies]
uuid = { version = "1", features = ["v4"] }
blake3 = "1"
chrono = "0.4"
toml = "0.8"
serde = { version = "1", features = ["derive"] }
infer = "0.16"
clap = { version = "4", features = ["derive"] }
tokio = { version = "1", features = ["rt-multi-thread", "macros"] }
terminal_size = "0.4"
dirs = "6"
anyhow = "1"
async-trait = "0.1"
rusqlite = { version = "0.32", features = ["bundled"] }
sqlite-vec = "0.1"
zerocopy = "0.8"
