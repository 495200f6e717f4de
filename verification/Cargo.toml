[package]
name = "rookeeper"
version = "0.1.0"
edition = "2021"
publish = false

[dependencies]
crc32fast = "1"
tokio = { version = "1", features = ["sync", "rt-multi-thread", "macros", "net", "io-util", "time"] }
serde = { version = "1", features = ["derive"] }
bincode = "1"
toml = "0.8"
anyhow = "1"
clap = { version = "4", features = ["derive"] }
thiserror = "1"
tracing = "0.1"
tracing-subscriber = { version = "0.3", features = ["env-filter", "json"] }
bytes = "1"
