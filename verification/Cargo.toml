[package]
name = "rollup_kernel"
version = "0.1.0"
edition = "2021"
publish = false

[dependencies]
sha3 = "=0.10.9"
libsecp256k1 = "=0.7.2"
bincode = { version = "=2.0.1", features = ["serde"] }
serde = { version = "=1.0.229", features = ["derive"] }
serde_json = "=1.0.154"
thiserror = "=2.0.21"
revm = { version = "=3.3.0", default-features = false, features = ["std", "serde"] }
tezos-smart-rollup = { version = "=0.2.2", default-features = false, features = ["std", "crypto", "data-encoding", "storage", "bls"] }
tezos_crypto_rs = "=0.5.2"
tezos_data_encoding = "=0.5.2"
alloy-sol-types = "=1.7.3"
