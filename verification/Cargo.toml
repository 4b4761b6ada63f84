[package]
name = "explorer_index"
version = "0.1.0"
edition = "2021"
publish = false

[dependencies]
sha2 = "=0.10.9"
rand = "=0.8.8"
serde = { version = "1", features = ["derive"] }
serde_json = "1"
toml = "=0.8.23"

[dev-dependencies]
hex = "=0.4.3"
