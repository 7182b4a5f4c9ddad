[package]
name = "client_pool"
version = "0.1.0"
edition = "2021"
publish = false

[dependencies]
serde = { version = "1", features = ["derive"] }
serde_json = "1"
clap = { version = "4", features = ["derive"] }
log = "0.4"
env_logger = "*"
reqwest = { version = "*", default-features = false, features = ["blocking", "json"] }
solana-sdk = "*"
