[package]
name = "trana"
version = "0.1.0"
edition = "2021"
publish = false

[dependencies]
bincode = "1"
sha2 = "0.10"
hex = "0.4"
ed25519-dalek = "2"
serde = { version = "1", features = ["derive"] }
serde_json = "1"
anyhow = "1"
axum = "0.7"
clap = { version = "4", features = ["derive"] }
directories = "5"
futures-util = "0.3"
tokio = { version = "1", features = ["full"] }
tracing = "0.1"
tracing-subscriber = { version = "0.3", features = ["env-filter"] }
