[package]
name = "eth_calldata"
version = "0.1.0"
edition = "2021"
publish = false

[dependencies]
sha3 = "*"
serde_json = "*"
