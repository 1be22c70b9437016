[package]
name = "gamik"
version = "0.1.0"
edition = "2021"
publish = false

[dependencies]
bincode = { version = "2", features = ["derive"] }
bitcode = { version = "0.6", features = ["derive"] }
rustc-hash = "2"
