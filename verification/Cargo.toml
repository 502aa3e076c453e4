[package]
name = "rusbee"
version = "0.1.0"
edition = "2021"
publish = false

[dependencies]
anyhow = "1"
axum = "0.8"
clap = { version = "4", features = ["derive"] }
clap_complete = "4"
crossterm = "0.28"
env_logger = "0.11"
inquire = "0.7"
log = "0.4"
ratatui = "0.29"
reqwest = { version = "0.12", default-features = false, features = ["json"] }
serde = { version = "1", features = ["derive"] }
serde_json = "1"
tabled = "0.17"
tokio = { version = "1", features = ["macros", "rt-multi-thread", "process", "net", "time"] }
toml = "0.8"
