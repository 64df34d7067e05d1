[package]
name = "liberty_crypto"
version = "0.1.0"
edition = "2021"
publish = false

[dependencies]
aes-gcm = "0.10"
base64 = "0.22"
blake3 = "1"
ed25519-dalek = "2"
hkdf = "0.12"
hmac = "0.12"
pqc_kyber = "0.7"
rand = "0.8"
serde = { version = "1", features = ["derive"] }
sha3 = "0.10"
subtle = "2"
thiserror = "1"
x25519-dalek = { version = "2", features = ["static_secrets"] }
