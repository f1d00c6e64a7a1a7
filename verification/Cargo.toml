[package]
name = "poh_ledger"
version = "0.1.0"
edition = "2021"
publish = false

[dependencies]
blake3 = "1"

[dev-dependencies]
bincode = "1"
