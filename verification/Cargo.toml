[package]
name = "tangleaf"
version = "0.1.0"
edition = "2021"
publish = false

[dependencies]
anyhow = "=1.0.104"
chrono = { version = "=0.4.45", default-features = false, features = ["clock"] }
raw-window-handle = "=0.6.2"
rusqlite = { version = "=0.41.1", features = ["bundled", "trace"] }
serde = { version = "=1.0.229", features = ["derive"] }
serde_json = "=1.0.154"
tokio = { version = "=1.54.1", features = ["sync", "rt", "macros"] }
tracing = "=0.1.44"
url = { version = "=2.5.8", features = ["serde"] }
uuid = { version = "=1.29.0", features = ["v4", "v5", "v7", "serde"] }

[dev-dependencies]
serde_json = "=1.0.154"
