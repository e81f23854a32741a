[package]
name = "gameroom_ledger"
version = "0.1.0"
edition = "2021"
publish = false

[dependencies]
rust-crypto = "=0.2.36"
serde = { version = "1", features = ["derive"] }
