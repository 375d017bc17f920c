[package]
name = "ref_farming"
version = "0.1.0"
edition = "2021"
publish = false

[dependencies]
near-sdk = "3.1.0"
uint = { version = "0.9.0", default-features = false }
