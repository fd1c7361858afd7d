[package]
name = "solana-validator-exporter"
version = "0.1.0"
edition = "2021"
publish = false

[dependencies]
solana-sdk = { version = "2", default-features = false }
solana-rpc-client = "2"
solana-rpc-client-api = "2"
solana-transaction-status-client-types = "2"
solana-account-decoder-client-types = "2"
serde = { version = "1", features = ["derive"] }
serde_json = "1"
log = "0.4"
tokio = { version = "1", features = ["rt-multi-thread", "macros", "time"] }
reqwest = { version = "0.12", default-features = false, features = ["json", "rustls-tls"] }
