[package]
name = "rust_chess_engine"
version = "0.2.0"
edition = "2021"
publish = false

[dependencies]
rand = "0.8"
sha2 = "0.10"
