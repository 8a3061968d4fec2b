[package]
name = "pos_chain"
version = "0.1.0"
edition = "2021"
publish = false

[dependencies]
sha2 = "0.10"
hex = "0.4"
bs58 = "0.5"
ed25519-dalek = "2"
rand = "0.8"
serde = { version = "1", features = ["derive"] }
serde_json = "1"
tokio = { version = "1", features = ["full"] }
toml = "0.8"
axum = "0.7"
sled = "0.34"
reqwest = { version = "0.12", default-features = false, features = ["blocking", "json"] }
