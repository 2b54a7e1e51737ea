[package]
name = "realtps"
version = "0.1.0"
edition = "2021"
publish = false

[dependencies]
anyhow = "1"
async-trait = "0.1"
futures = "0.3"
log = "0.4"
rand = "=0.8.8"
serde = { version = "1", features = ["derive"] }
serde_json = "1"
tokio = { version = "1", features = ["rt-multi-thread", "macros", "sync"] }
tokio-stream = "0.1"
solana-sdk = "=1.9.29"
solana-transaction-status = "=1.9.29"
near-primitives = "=0.15.0"
tendermint = "0.23"
tendermint-proto = "0.23"
