[package]
name = "reddit_tui"
version = "0.1.0"
edition = "2021"
publish = false

[dependencies]
reqwest = { version = "0.12", default-features = false, features = ["blocking", "rustls-tls"] }
serde_json = "1"
tokio = { version = "1", features = ["rt-multi-thread"] }
crossterm = "0.28"
ratatui = "0.29"
