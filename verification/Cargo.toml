[package]
name = "miniscript"
version = "0.1.0"
edition = "2021"
publish = false

[dependencies]
bitcoin = "0.23"
secp256k1 = "0.17"
serde = "1"
