[package]
name = "zed-chat-export"
version = "0.1.0"
edition = "2021"
publish = false

[dependencies]
base64 = "0.22"
chrono = { version = "0.4", features = ["serde"] }
clap = { version = "4", features = ["derive"] }
crossbeam-channel = "0.5"
dirs = "6"
eyre = "0.6"
indicatif = "0.17"
infer = "0.19"
rusqlite = { version = "0.37", features = ["bundled", "backup"] }
serde = { version = "1", features = ["derive"] }
serde_json = "1"
serde_yaml = "0.9"
sha2 = "0.10"
slug = "0.1"
tempfile = "3"
toml = "0.8"
url = { version = "2", features = ["serde"] }
uuid = { version = "1", features = ["v4"] }
zstd = "0.13"
