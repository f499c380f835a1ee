[package]
name = "site_crawler"
version = "0.1.0"
edition = "2021"
publish = false

[dependencies]
url = "2"
kuchiki = "0.8"
reqwest = { version = "0.12", default-features = false }
tokio = { version = "1", features = ["rt-multi-thread", "time"] }
clap = { version = "4", features = ["derive"] }
