[package]
name = "attestation_service"
version = "0.1.0"
edition = "2021"
publish = false

[dependencies]
ciborium = "0.2"
sha2 = "0.10"
hex = "0.4"
base64 = "0.22"
rand = "0.8"
serde = { version = "1", features = ["derive"] }
serde_bytes = "0.11"
serde_json = "1"
axum = { version = "0.8", features = ["multipart"] }
tokio = { version = "1", features = ["macros", "rt-multi-thread", "net"] }
reqwest = { version = "0.12", default-features = false, features = ["blocking", "rustls-tls"] }
anyhow = "1"
thiserror = "2"
tracing = "0.1"
tracing-subscriber = { version = "0.3", features = ["env-filter"] }
tar = "0.4"
flate2 = "1"
tempfile = "3"
