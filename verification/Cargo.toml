[package]
name = "executor_attestation"
version = "0.1.0"
edition = "2021"
publish = false

[dependencies]
parity-scale-codec = { version = "=2.3.1", features = ["derive"] }
futures = "0.3"
log = "0.4"
serde = { version = "1", features = ["derive"] }
sp-api = "3"
sp-application-crypto = "3"
sp-blockchain = "3"
sp-consensus = "0.9"
sp-core = "3"
sp-inherents = "3"
sp-keystore = "0.9"
sp-runtime = "3"
sp-std = "3"
substrate-bip39 = "=0.4.2"
