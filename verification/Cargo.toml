[package]
name = "minnehack_check_in"
version = "0.1.0"
edition = "2021"
publish = false

[dependencies]
rust-crypto = "*"
sha2 = "*"
serde = { version = "*", features = ["derive"] }
toml = "*"
