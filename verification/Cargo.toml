[package]
name = "webcrawler"
version = "0.1.0"
edition = "2021"
publish = false

[dependencies]
url = "*"
hyper = "*"
log = "*"
env_logger = "*"
chrono = "*"
tokio = { version = "*", features = ["rt-multi-thread", "macros", "sync"] }
reqwest = { version = "*", default-features = false }
