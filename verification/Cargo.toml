[package]
name = "geotagger"
version = "0.1.0"
edition = "2021"
publish = false

[dependencies]
chrono = { version = "=0.4.45", features = ["serde"] }
chrono-tz = "=0.10.4"
csv = "=1.4.0"
quick-xml = "=0.37.5"
serde = { version = "=1.0.229", features = ["derive"] }
serde_json = "=1.0.154"
sha2 = "=0.10.9"
uuid = { version = "=1.29.0", features = ["v4", "v5", "serde"] }
walkdir = "=2.5.0"
