[package]
name = "credvault"
version = "0.1.0"
edition = "2021"
publish = false

[dependencies]
argon2 = "=0.6.0"
chacha20poly1305 = "=0.11.0"
getrandom = "=0.4.3"
serde_json = "=1.0.151"
zeroize = "=1.9.1"
