[package]
name = "analytics"
version = "0.1.0"
edition = "2021"
publish = false

[dependencies]
notify = "=4.0.18"
rocket = "0.5"
rusqlite = { version = "=0.16.0", features = ["bundled"] }
serde = { version = "=1.0.229", features = ["derive"] }
serde_json = "=1.0.154"
