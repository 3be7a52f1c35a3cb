[package]
name = "roselite"
version = "1.0.0"
edition = "2021"
publish = false

[dependencies]
anyhow = "*"
axum = "*"
clap = "*"
fastping-rs = "*"
futures = "*"
json5 = "*"
reqwest = { version = "*", default-features = false }
serde = { version = "*", features = ["derive"] }
serde_yaml = "*"
tokio = { version = "*", features = ["full"] }
toml = "*"
