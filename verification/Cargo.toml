[package]
name = "wallet_vault"
version = "0.1.0"
edition = "2021"
publish = false

[dependencies]
base64 = "=0.23.1"
bs58 = "=0.5.1"
keyring = { version = "=3.6.3", default-features = false }
reqwest = { version = "=0.13.5", default-features = false, features = ["blocking", "json"] }
rusqlite = { version = "=0.40.2", features = ["bundled"] }
serde = { version = "=1.0.229", features = ["derive"] }
serde_json = "=1.0.151"
