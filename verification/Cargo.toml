[package]
name = "npmrc"
version = "0.1.0"
edition = "2021"
publish = false

[dependencies]
serde_ini = "*"
serde = { version = "1", features = ["derive"] }
dirs = "*"
failure = "0.1"
