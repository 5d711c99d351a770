[package]
name = "walshadow"
version = "0.1.0"
edition = "2021"
publish = false

[dependencies]
ahash = "0.8"
async-channel = "2"
backon = "1"
crc32c = "0.6"
serde = { version = "1", features = ["derive"] }
thiserror = "2"
tokio = { version = "1", features = ["sync", "rt", "time", "macros", "fs"] }
toml = "*"
tracing = "0.1"
