[package]
name = "erc721"
version = "0.1.0"
edition = "2021"

[dependencies]
sha3 = "0.10"
