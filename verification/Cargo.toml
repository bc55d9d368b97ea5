[package]
name = "coinswap_wallet"
version = "0.1.0"
edition = "2021"
publish = false

[dependencies]
bip39 = { version = "=2.2.2", features = ["rand"] }
bitcoin = { version = "=0.32.102", features = ["rand-std", "serde"] }
bitcoind = "=0.36.1"
clap = { version = "4", features = ["derive"] }
electrum-client = "=0.25.2"
log = "0.4"
rust-coinselect = "=0.1.6"
secp256k1 = { version = "=0.31.1", features = ["rand", "std"] }
serde = { version = "1", features = ["derive"] }
serde_json = "1"
