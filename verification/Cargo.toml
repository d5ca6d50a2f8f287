[package]
name = "sybl"
version = "0.1.0"
edition = "2021"
publish = false

[dependencies]
anyhow = "1"
async-trait = "0.1"
base64 = "0.13"
bytes = "1"
bzip2 = "0.4"
chrono = "0.4"
crossbeam = "0.8"
csv = "1"
fern = { version = "0.6", features = ["colored"] }
lettre = { version = "0.10", default-features = false, features = ["builder", "smtp-transport", "tokio1", "tokio1-rustls-tls"] }
log = "0.4"
mongodb = "1.2"
pretty_env_logger = "0.4"
rand = "0.8"
rdkafka = "0.26"
reqwest = { version = "0.11", default-features = false, features = ["json", "rustls-tls"] }
serde = { version = "1", features = ["derive"] }
serde_json = "1"
tokio = { version = "1", features = ["full"] }
tokio-stream = "0.1"
