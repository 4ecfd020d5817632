[package]
name = "electrs"
version = "0.1.0"
edition = "2021"
publish = false

[dependencies]
bitcoin = "0.17"
hex = "0.3"
libc = "0.2"
serde_json = { version = "1.0", features = ["preserve_order"] }
