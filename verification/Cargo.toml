[package]
name = "azdo"
version = "0.1.0"
edition = "2021"
publish = false

[dependencies]
base64 = "0.22"
html2text = "*"
serde = { version = "1", features = ["derive"] }
serde_json = "1"
toml = "0.8"
thiserror = "2"
clap = { version = "4", features = ["derive"] }
tokio = { version = "1", features = ["rt", "time"] }
reqwest = { version = "0.12", default-features = false, features = ["json", "rustls-tls"] }
ratatui = "0.29"
rhai = "1"
tracing-subscriber = { version = "0.3", features = ["env-filter", "fmt"] }
