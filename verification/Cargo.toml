[package]
name = "rust_stark"
version = "0.1.0"
edition = "2021"
publish = false

[dependencies]
winter-math = "=0.13.1"
winter-crypto = "=0.13.1"
serde = { version = "=1.0.229", features = ["derive"] }
