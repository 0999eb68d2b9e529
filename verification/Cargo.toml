[package]
name = "crypto_core"
version = "0.1.0"
edition = "2021"
publish = false

[dependencies]
aead = { version = "0.5", features = ["stream"] }
aes-gcm = "0.10"
chacha20poly1305 = "0.10"
argon2 = "0.5"
rand = "0.8"
zeroize = "1"
