[package]
name = "anime_season"
version = "0.1.0"
edition = "2021"
publish = false

[dependencies]
scraper = "*"
reqwest = { version = "*", default-features = false, features = ["cookies"] }
tokio = { version = "*", features = ["rt-multi-thread", "macros"] }
