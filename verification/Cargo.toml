[package]
name = "covalue_core"
version = "0.1.0"
edition = "2021"
publish = false

[dependencies]
blake3 = "1"
bs58 = "0.5"
ed25519-dalek = "2"
serde_json = "1"
chrono = "0.4"
