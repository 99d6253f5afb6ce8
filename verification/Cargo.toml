[package]
name = "pyth_agent"
version = "0.1.0"
edition = "2021"
publish = false

[dependencies]
anyhow = "*"
bs58 = "*"
bytemuck = "*"
chrono = { version = "=0.4.45", default-features = false, features = ["std", "alloc"] }
humantime = "*"
pyth-sdk = "*"
pyth-sdk-solana = "=0.10.6"
serde = { version = "*", features = ["derive"] }
slog = "*"
solana-program = "=1.18.26"
tokio = { version = "*", features = ["rt-multi-thread", "macros", "sync", "time"] }
