[package]
name = "codecrafters_bittorrent"
version = "0.1.0"
edition = "2021"
publish = false

[dependencies]
anyhow = "1"
bincode = "2"
bytes = "1"
clap = { version = "4", features = ["derive"] }
futures-core = "0.3"
futures-util = { version = "0.3", features = ["sink"] }
hex = "0.4"
rand = "0.9"
reqwest = { version = "0.12", default-features = false }
serde = { version = "1", features = ["derive"] }
serde_bencode = "0.2"
serde_bytes = "0.11"
serde_json = "1"
serde_repr = "0.1"
serde_urlencoded = "0.7"
sha1 = "0.10"
strum = { version = "0.27", features = ["derive"] }
thiserror = "2"
tokio = { version = "1", features = ["full"] }
tokio-util = { version = "0.7", features = ["codec", "time"] }
tracing-mutex = "0.3"
url = { version = "2", features = ["serde"] }
