[package]
name = "spectra"
version = "0.1.0"
edition = "2021"
publish = false

[dependencies]
sha2 = "0.10"
hex = "0.4"
serde_json = "1"
regex = "1"
blake3 = "1"
strsim = "0.11"
ed25519-dalek = "2"
rand = "0.9"
chrono = "0.4"
serde = { version = "1", features = ["derive"] }
tokio = { version = "1", features = ["full"] }
reqwest = { version = "0.12", default-features = false, features = ["json", "rustls-tls"] }
hickory-resolver = "0.25"
rusqlite = { version = "0.32", features = ["bundled"] }
toml = "0.8"
clap = { version = "4", features = ["derive"] }
uuid = { version = "1", features = ["v4"] }
http = "1"
url = "2"
dashmap = "6"
governor = "0.8"
tokio-util = "0.7"
async-trait = "0.1"
thiserror = "2"
tracing = "0.1"
tracing-subscriber = "0.3"
printpdf = "0.7"
docx-rs = "0.4"
