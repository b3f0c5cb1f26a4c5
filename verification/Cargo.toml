[package]
name = "issue_bot"
version = "0.1.0"
edition = "2021"
publish = false

[dependencies]
anyhow = "*"
async-trait = "*"
chrono = { version = "*", features = ["serde"] }
clap = { version = "*", features = ["derive"] }
dotenv = "*"
env_logger = "*"
log = "*"
octocrab = "*"
rand = "*"
regex = "*"
reqwest = { version = "*", default-features = false, features = ["json", "rustls-tls"] }
serde = { version = "*", features = ["derive"] }
serde_json = "*"
tokio = { version = "*", features = ["full"] }
toml = "*"
