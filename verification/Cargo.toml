[package]
name = "asset_optimizer"
version = "0.1.0"
edition = "2021"
publish = false

[dependencies]
anyhow = "1"
clap = "4"
futures = "0.3"
indicatif = "0.17"
serde = { version = "1", features = ["derive"] }
serde_json = "1"
tokio = { version = "1", features = ["full"] }
usvg = { version = "*", default-features = false }
walkdir = "2"
