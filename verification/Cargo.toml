[package]
name = "wallet_core"
version = "0.1.0"
edition = "2021"
publish = false

[dependencies]
rand = "=0.8.8"
sha2 = "=0.10.9"
argon2 = "=0.5.3"
chacha20poly1305 = "=0.10.1"
ed25519-dalek = "=2.2.0"
bip39 = "=2.2.2"
p256 = "0.13"
