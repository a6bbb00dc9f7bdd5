[package]
name = "knowledge_agent"
version = "0.1.0"
edition = "2021"
publish = false

[dependencies]
gray_matter = "0.2"
serde = { version = "1", features = ["derive"] }
serde_json = "1"
toml = "0.8"
walkdir = "2"
anyhow = "1"
thiserror = "2"
tokio = { version = "1", features = ["full"] }
axum = "0.8"
tower-http = { version = "0.6", features = ["fs"] }
futures = "0.3"
async-trait = "0.1"
clap = { version = "4", features = ["derive"] }

[dev-dependencies]
tempfile = "3"
