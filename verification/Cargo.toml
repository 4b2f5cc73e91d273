[package]
name = "staked_nodes_updater"
version = "0.1.0"
edition = "2021"
publish = false

[dependencies]
serde = { version = "1", features = ["derive"] }
solana-sdk = "=1.14.29"
solana-streamer = "=1.14.29"
