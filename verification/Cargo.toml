[package]
name = "herdr-beacon"
version = "0.1.0"
edition = "2021"
publish = false

[dependencies]
anyhow = "=1.0.104"
clap = { version = "=4.6.7", features = ["derive"] }
fs2 = "=0.4.3"
serde = { version = "=1.0.229", features = ["derive"] }
serde_json = { version = "=1.0.154", features = ["preserve_order"] }
socket2 = "=0.5.10"
toml_edit = "=0.22.27"
uuid = { version = "=1.29.0", features = ["v4"] }
