[package]
name = "tui_suite"
version = "0.1.0"
edition = "2021"
publish = false

[dependencies]
comrak = { version = "=0.29.0", default-features = false }
fuzzy-matcher = "=0.3.7"
crossterm = "=0.28.1"
ratatui = "=0.29.0"
reqwest = { version = "=0.12.28", default-features = false, features = ["rustls-tls"] }
tokio = { version = "=1.54.1", features = ["macros", "rt-multi-thread"] }
webbrowser = "=1.2.6"
rusqlite = { version = "=0.32.1", features = ["chrono"] }
serde = { version = "=1.0.229", features = ["derive"] }
serde_json = "=1.0.154"
color-eyre = "=0.6.5"
chrono = { version = "=0.4.45", features = ["serde"] }
