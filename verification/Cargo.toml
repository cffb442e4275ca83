[package]
name = "mmm"
version = "0.1.0"
edition = "2021"
publish = false

[dependencies]
anyhow = "1"
async-trait = "0.1"
chrono = { version = "0.4", features = ["serde"] }
csv = "1"
flate2 = "1"
futures = "0.3"
futures-util = "0.3"
itertools = "0.10"
log = "0.4"
rayon = "1"
serde = { version = "1", features = ["derive"] }
serde_json = "1"
serde_with = "1"
structopt = "0.3"
thiserror = "1"
tokio = { version = "1", features = ["rt-multi-thread", "macros", "net", "sync", "time"] }
tokio-stream = { version = "0.1", features = ["sync"] }
tokio-tungstenite = { version = "0.17", features = ["native-tls"] }
url = "2"
uuid = { version = "0.8", features = ["serde"] }
zstd = "0.11"
