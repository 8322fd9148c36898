[package]
name = "oe4"
version = "0.1.0"
edition = "2021"
publish = false

[dependencies]
rlp = "0.5"
serde = "1"
tokio = { version = "1", features = ["full"] }
async-trait = "0.1"
async-std = "1"
ethereum = "*"
secp256k1 = "*"
