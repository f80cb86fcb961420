[package]
name = "merkle_distributor"
version = "0.1.0"
edition = "2021"
publish = false

[dependencies]
web3 = { version = "*", default-features = false, features = ["signing"] }
tiny-keccak = { version = "*", features = ["keccak"] }
serde = { version = "*", features = ["derive"] }
serde_json = "*"
