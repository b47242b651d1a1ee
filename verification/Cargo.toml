[package]
name = "tenk"
version = "0.1.0"
edition = "2021"
publish = false

[dependencies]
near-sdk = { version = "4", default-features = false }
near-contract-standards = { version = "4", default-features = false }
near-units = "0.2"
