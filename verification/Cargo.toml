[package]
name = "seedvault"
version = "0.1.0"
edition = "2021"
publish = false

[dependencies]
base64 = "0.13"
rand = "0.8"
sha2 = "0.10"
hkdf = "0.12"
ed25519-dalek = "2"
x25519-dalek = "2"
aes-gcm = "0.10"
serde = { version = "1", features = ["derive"] }
serde_json = "1"
