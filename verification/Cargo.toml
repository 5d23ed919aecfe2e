[package]
name = "trash_rs"
version = "0.1.0"
edition = "2021"
publish = false

[dependencies]
dirs-next = "2"
humantime = "2"
serde = { version = "1", features = ["derive"] }
toml = "0.8"
