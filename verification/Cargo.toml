[package]
name = "merkleverse"
version = "0.1.0"
edition = "2021"
publish = false

[dependencies]
anyhow = "1"
base64 = "0.22"
bls-signatures = "0.15"
clap = { version = "4", features = ["derive"] }
config = "0.14"
ed25519-dalek = "2"
futures = "0.3"
prost = "0.13"
rand = "0.8"
serde = { version = "1", features = ["derive"] }
tokio = { version = "1", features = ["macros", "rt-multi-thread", "sync", "time"] }
toml = "0.8"
tonic = "0.12"
tracing = "0.1"
tracing-subscriber = { version = "0.3", features = ["env-filter"] }
