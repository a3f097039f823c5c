[package]
name = "blockchain_rust"
version = "0.1.0"
edition = "2021"
publish = false

[dependencies]
crypto-hash = "=0.3.4"
ripemd160 = "=0.8.0"
bs58 = "=0.5.1"
hex = "=0.4.3"
secp256k1 = { version = "=0.20.3", features = ["rand"] }
rand = "=0.6.5"
log = "=0.4.35"
simplelog = "=0.12.2"
serde = { version = "=1.0.229", features = ["derive"] }
serde_json = "=1.0.154"
actix = "=0.13.5"
actix-rt = "=2.15.0"
tungstenite = "=0.30.0"
