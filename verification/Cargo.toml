[package]
name = "quantum_goldchain"
version = "0.1.0"
edition = "2021"
publish = false

[dependencies]
sha2 = "0.10"
ripemd = "0.1"
hex = "0.4"
bs58 = "0.5"
chrono = { version = "0.4", default-features = false, features = ["clock"] }
secp256k1 = "0.29"
bitcoin = "0.32"
bip39 = "2"
rand = "0.8"
sled = "0.34"
bincode = "1"
serde = { version = "1", features = ["derive"] }
serde_json = "1"
log = "0.4"
env_logger = "0.11"
thiserror = "1"
anyhow = "1"
num_cpus = "1"
clap = { version = "4", features = ["derive"] }
tokio = { version = "1", features = ["rt-multi-thread", "macros", "sync", "time"] }
