[package]
name = "radar_fetch"
version = "0.1.0"
edition = "2021"
publish = false

[dependencies]
scraper = "0.20"
url = "2.5"
reqwest = { version = "0.12", default-features = false }
tokio = { version = "1", features = ["rt-multi-thread", "macros", "fs", "io-util", "sync"] }
futures = "0.3"
