[package]
name = "seguro"
version = "0.1.0"
edition = "2021"
publish = false

[dependencies]
chacha20poly1305 = { version = "0.10", features = ["stream"] }
rust-argon2 = "2"
rand = "0.8"
zeroize = "1"
anyhow = "1"
zip-extensions = "0.6"
