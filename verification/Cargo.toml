[package]
name = "k_rust_backend"
version = "0.1.0"
edition = "2021"
publish = false

[dependencies]
rustc-hash = "2"
sha2 = "0.10"
