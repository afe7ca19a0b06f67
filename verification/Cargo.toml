[package]
name = "rust_sfu_iroh"
version = "0.1.0"
edition = "2021"
publish = false

[dependencies]
bytes = "1"
anyhow = "1"
async-trait = "0.1"
serde = { version = "1", features = ["derive"] }
serde_json = "1"
thiserror = "1"
tokio = { version = "1", features = ["full"] }
tracing = "0.1"
tracing-subscriber = { version = "0.3", features = ["env-filter"] }
