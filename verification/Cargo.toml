[package]
name = "jobhunt"
version = "0.1.0"
edition = "2021"
publish = false

[dependencies]
chrono = "0.4"
colored = "2"
itertools = "0.10"
regex = "1"
reqwest = { version = "0.11", features = ["blocking"] }
rustyline = "12"
scraper = "0.17"
thiserror = "1"
