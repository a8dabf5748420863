[package]
name = "raydium_amm_bot"
version = "0.1.0"
edition = "2021"
publish = false

[dependencies]
async-trait = "=0.1.92"
carbon-core = { version = "=0.9.1", default-features = false }
carbon-raydium-amm-v4-decoder = { version = "=0.9.1", default-features = false }
chrono = { version = "=0.4.45", default-features = false, features = ["alloc", "std", "now"] }
dotenv = "=0.15.0"
dotenvy = "=0.15.7"
env_logger = { version = "=0.11.11", default-features = false }
serde = { version = "=1.0.229", features = ["derive"] }
serde_json = "=1.0.154"
solana-sdk = { version = "=2.2.2", default-features = false }
solana-signature = "=2.2.1"
spl-associated-token-account = { version = "=7.0.0", default-features = false, features = ["no-entrypoint"] }
tokio = { version = "=1.54.1", features = ["macros", "rt-multi-thread", "sync", "time"] }
