[package]
name = "fedimint-prediction-markets-client"
version = "0.1.0"
edition = "2021"
publish = false

[dependencies]
anyhow = "=1.0.104"
bitcoin = "=0.29.2"
clap = { version = "=4.6.7", features = ["derive"] }
fedimint-core = "=0.3.3"
fedimint-derive-secret = "=0.3.3"
futures = "=0.3.34"
secp256k1 = "=0.24.3"
serde = { version = "=1.0.229", features = ["derive"] }
serde_json = "=1.0.154"
tokio = { version = "=1.54.1", features = ["rt", "macros", "time"] }
