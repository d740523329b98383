[package]
name = "stellar_mixer_treepir_server"
version = "0.1.0"
edition = "2021"
publish = false

[dependencies]
anyhow = "=1.0.104"
axum = "=0.8.9"
base64 = "=0.22.1"
bincode = "=1.3.3"
dotenvy = "=0.15.7"
hex = "=0.4.3"
reqwest = { version = "=0.13.5", default-features = false, features = ["json", "rustls"] }
rocksdb = { version = "=0.25.0", default-features = false }
serde = { version = "=1.0.229", features = ["derive"] }
serde_json = "=1.0.154"
stellar-rpc-client = "=30.0.0"
stellar-strkey = "=1.0.0"
stellar-xdr = { version = "=30.0.0", features = ["base64", "serde"] }
thiserror = "=2.0.21"
tokio = { version = "=1.54.1", features = ["full"] }
tracing = "=0.1.44"
tracing-subscriber = { version = "=0.3.23", features = ["env-filter"] }
