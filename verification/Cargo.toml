[package]
name = "sumidero"
version = "0.1.0"
edition = "2021"
publish = false

[dependencies]
arc-swap = "1"
clap = { version = "4", features = ["derive"] }
hickory-proto = { version = "*", features = ["dnssec-ring"] }
hickory-resolver = { version = "*", features = ["https-ring", "quic-ring"] }
ipnet = { version = "2", features = ["serde"] }
nix = { version = "*", features = ["signal"] }
reqwest = { version = "*", default-features = false }
rusqlite = { version = "*", features = ["bundled"] }
rustls = { version = "0.23", default-features = false, features = ["ring", "std", "tls12"] }
serde = { version = "1", features = ["derive"] }
serde_json = "1"
serde_yaml = "0.9"
sha2 = "0.10"
socket2 = "*"
thiserror = "2"
tokio = { version = "1", features = ["full"] }
toml = "*"
tracing = "0.1"
tracing-subscriber = { version = "0.3", features = ["env-filter"] }
url = "2"
webpki-roots = "*"
