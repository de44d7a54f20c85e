[package]
name = "caeth-ft"
version = "0.1.0"
edition = "2021"
publish = false

[dependencies]
near-sdk = "=5.1.0"
near-contract-standards = "=5.1.0"
