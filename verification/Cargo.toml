[package]
name = "donation_matcher_contract"
version = "0.1.0"
edition = "2021"
publish = false

[dependencies]
near-sdk = { version = "=4.1.1", default-features = false, features = ["legacy"] }
near-units = "=0.2.0"
witgen = "=0.15.0"
