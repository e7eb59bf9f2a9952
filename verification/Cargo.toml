[package]
name = "zert"
version = "0.1.0"
edition = "2021"
publish = false

[dependencies]
solana-program = "=1.18.26"
light-hasher = { version = "=7.0.0", features = ["poseidon"] }
