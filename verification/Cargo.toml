[package]
name = "marketplace_codec"
version = "0.1.0"
edition = "2021"
publish = false

[dependencies]
casper-contract = { version = "=1.4.4", default-features = false, features = ["std"] }
casper-types = "=1.5.0"
