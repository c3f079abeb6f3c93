[package]
name = "means_core"
version = "0.1.0"
edition = "2021"
publish = false

[dependencies]
anyhow = "=1.0.104"
chrono = { version = "=0.4.45", default-features = false, features = ["clock", "std", "serde"] }
chrono-tz = "=0.10.4"
csv = "=1.4.0"
hex = "=0.4.3"
mailparse = "=0.17.0"
plist = "=1.10.3"
regex = "=1.13.1"
rusqlite = { version = "=0.41.1", features = ["bundled", "backup"] }
rust_decimal = { version = "=1.43.0", features = ["serde-with-str"] }
serde = { version = "=1.0.229", features = ["derive"] }
serde_json = { version = "=1.0.154", features = ["arbitrary_precision"] }
sha2 = "=0.10.9"
thiserror = "=2.0.21"
tracing = "=0.1.44"
url = "=2.5.8"
uuid = { version = "=1.29.0", features = ["v7"] }
