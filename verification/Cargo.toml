[package]
name = "bundt"
version = "0.2.0"
edition = "2021"
publish = false

[dependencies]
anyhow = "1"
clap = { version = "4", features = ["derive"] }
dirs = "*"
serde_json = "1"
tokio = { version = "1", features = ["full"] }
