[package]
name = "multisig_core"
version = "0.1.0"
edition = "2021"
publish = false

[dependencies]
subxt = "=0.22.0"
sp-core-hashing = "=4.0.0"
substrate-bip39 = "=0.4.4"
futures = "=0.3.34"
tokio = { version = "=1.54.1", features = ["rt-multi-thread", "macros", "time"] }
