[package]
name = "tx_sitter"
version = "0.1.0"
edition = "2021"
publish = false

[dependencies]
ethers-core = "*"
rand = "0.8"
