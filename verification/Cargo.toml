[package]
name = "data_scraper"
version = "0.1.0"
edition = "2021"
publish = false

[dependencies]
anyhow = "1"
chrono = "0.4"
csv = "1"
dashmap = "6"
eframe = { version = "*", default-features = false, features = ["default_fonts", "glow", "x11"] }
encoding_rs = "0.8"
env_logger = { version = "0.11", default-features = false }
futures = "0.3"
log = "0.4"
once_cell = "1"
parking_lot = "0.12"
reqwest = { version = "0.12", default-features = false, features = ["rustls-tls", "gzip", "http2"] }
rusqlite = { version = "*", features = ["bundled"] }
scraper = "*"
serde = { version = "1", features = ["derive"] }
serde_json = "1"
serde_yaml = "0.9"
tokio = { version = "1", features = ["rt-multi-thread", "time", "sync", "macros"] }
url = "2"
uuid = { version = "1", features = ["v4"] }
