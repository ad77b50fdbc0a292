[package]
name = "blueboat"
version = "0.1.0"
edition = "2021"
publish = false

[dependencies]
hex = "=0.4.3"
base64 = "=0.13.1"
indexmap = "=1.9.3"
ring = "=0.17.14"
sha2 = "=0.10.9"
hmac = "=0.12.1"
md-5 = "=0.10.6"
blake3 = "=1.8.7"
aes-gcm-siv = "=0.10.1"
ed25519-dalek = { version = "=2.2.0", features = ["hazmat"] }
x25519-dalek = { version = "=2.0.1", features = ["static_secrets"] }
curve25519-dalek = "=4.1.3"
mime_guess = "=2.0.5"
pulldown-cmark = "=0.9.6"
ammonia = "=3.3.4"
regex = "=1.13.1"
once_cell = "=1.21.4"
thiserror = "=1.0.69"
anyhow = "=1.0.104"
serde = { version = "=1.0.229", features = ["derive"] }
serde_json = "=1.0.154"
parking_lot = "=0.12.5"
log = "=0.4.35"
time = "0.2"
