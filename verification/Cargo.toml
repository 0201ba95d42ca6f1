[package]
name = "equium_fleet_tools"
version = "0.1.0"
edition = "2021"
publish = false

[dependencies]
anyhow = "1"
clap = { version = "4", features = ["derive"] }
serde = { version = "1", features = ["derive"] }
serde_json = "1"
solana-sdk = "2"
solana-system-interface = { version = "1", features = ["bincode"] }
