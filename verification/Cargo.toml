[package]
name = "solana-bridge"
version = "0.1.0"
edition = "2021"
publish = false

[dependencies]
solana-program = "=1.18.26"
spl-token = { version = "=4.0.3", features = ["no-entrypoint"] }
borsh = { version = "=1.8.1", features = ["derive"] }
arrayref = "=0.3.9"
thiserror = "=1.0.69"

[dev-dependencies]
libsecp256k1 = "=0.6.0"
