[package]
name = "lot_ledger"
version = "0.1.0"
edition = "2021"
publish = false

[dependencies]
chrono = { version = "0.4", features = ["serde"] }
pickledb = "0.4"
serde = { version = "1", features = ["derive"] }
solana-sdk = "1.18"
thiserror = "1"
