[package]
name = "ndpc_contract"
version = "0.1.0"
edition = "2021"
publish = false

[dependencies]
casper-types = "3.0.0"
casper-contract = { version = "3.0.0", default-features = false }
