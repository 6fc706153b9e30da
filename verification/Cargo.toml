[package]
name = "powerflow"
version = "0.1.0"
edition = "2021"
publish = false

[dependencies]
ratatui = { version = "0.29", default-features = false }
serde = { version = "1", features = ["derive"] }
serde_json = "1"
tokio = { version = "1", features = ["sync", "rt", "macros", "time"] }
anyhow = "1"
log = "0.4"
