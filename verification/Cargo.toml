[package]
name = "codex-migrate"
version = "1.0.7"
edition = "2021"
publish = false

[dependencies]
serde_json = "=1.0.154"
sha2 = "=0.10.9"
hex = "=0.4.3"
chrono = "=0.4.45"
anyhow = "=1.0.104"
clap = { version = "=4.6.7", features = ["derive"] }
rusqlite = { version = "=0.32.1", features = ["bundled", "backup"] }
walkdir = "=2.5.0"
dirs = "=5.0.1"
uuid = { version = "=1.29.0", features = ["v4"] }
serde = { version = "=1.0.229", features = ["derive"] }

[dev-dependencies]
tempfile = "=3.27.0"
