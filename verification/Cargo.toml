[package]
name = "wikipedia_scraper"
version = "0.1.0"
edition = "2021"
publish = false

[dependencies]
crossbeam-channel = "*"
scraper = "*"
reqwest = { version = "*", default-features = false, features = ["blocking", "rustls-tls"] }
clap = { version = "*", features = ["derive"] }
thiserror = "*"
