[package]
name = "ledger_core"
version = "0.1.0"
edition = "2021"
publish = false

[dependencies]
stylus-sdk = "=0.10.10"
tiny-keccak = { version = "=2.0.2", features = ["keccak"] }
