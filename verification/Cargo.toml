[package]
name = "pelagian_shell"
version = "0.1.0"
edition = "2021"
publish = false

[dependencies]
serde = { version = "1", features = ["derive"] }
serde_json = "1"
toml = "*"
socket2 = { version = "0.5", features = ["all"] }
