[package]
name = "agentloop"
version = "0.1.0"
edition = "2021"
publish = false

[dependencies]
anyhow = "*"
colored = "*"
deepseek-api = "*"
dirs = "*"
futures-util = "*"
reqwest = { version = "*", default-features = false }
rustyline = "*"
scraper = "*"
tokio = { version = "*", features = ["full"] }
urlencoding = "*"
