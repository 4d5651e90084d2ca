[package]
name = "crawl"
version = "0.1.0"
edition = "2021"
publish = false

[dependencies]
regex = "=1.13.1"
sha2 = "=0.10.9"
scraper = "=0.29.0"
encoding_rs = "=0.8.44"
serde = { version = "=1.0.229", features = ["derive"] }
serde_json = "=1.0.154"
chrono = "=0.4.45"
arrow = { version = "=60.1.0", default-features = false }
parquet = { version = "=60.1.0", default-features = false, features = ["arrow"] }
reqwest = { version = "0.12", default-features = false, features = ["rustls-tls"] }
tokio = { version = "1", features = ["rt-multi-thread", "macros", "time"] }
dotenvy = "0.15"
rand = "*"
indicatif = "*"
http = "1"
