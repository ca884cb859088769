[package]
name = "aluvm"
version = "0.1.0"
edition = "2021"
publish = false

[dependencies]
amplify = "*"
bitcoin_hashes = "*"
