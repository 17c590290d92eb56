[package]
name = "treasury"
version = "0.1.0"
edition = "2021"
publish = false

[dependencies]
sha2 = "0.10"
base64 = "0.13"
url = "2"
rand = "0.8"
toml = "0.5"
serde = { version = "1", features = ["derive"] }
serde_json = "1"
serde_bytes = "0.11"
bincode = "1"
tokio = { version = "1", features = ["full"] }
libloading = "0.8"
clap = "2"
envy = "0.4"
dunce = "1"
