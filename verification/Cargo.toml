[package]
name = "cern_dns"
version = "0.1.0"
edition = "2021"
publish = false

[dependencies]
hickory-proto = { version = "0.25", features = ["dnssec-ring", "text-parsing"] }
ring = "0.17"
rand = "0.8"
base64 = "0.22"
ipnet = { version = "2", features = ["serde"] }
serde = { version = "1", features = ["derive"] }
serde_json = "1"
toml = "0.8"
thiserror = "2"
tokio = { version = "1", features = ["full"] }
tokio-util = "0.7"
axum = "0.8"
rustls = "0.23"
rustls-pemfile = "2"
rustls-pki-types = "1"
tokio-rustls = "0.26"
clap = { version = "4", features = ["derive"] }
tracing = "0.1"
tracing-subscriber = { version = "0.3", features = ["env-filter", "json"] }
prometheus-client = "0.23"
parking_lot = "0.12"
arc-swap = "1"
dashmap = "6"
moka = { version = "0.12", features = ["sync"] }
