[package]
name = "noos"
version = "0.1.0"
edition = "2021"
publish = false

[dependencies]
bincode = { version = "2", features = ["serde"] }
chrono = "0.4"
clap = { version = "4", features = ["derive"] }
dirs = "6"
html-escape = "0.2"
opml = "1"
rand = "0.9"
reqwest = { version = "0.12", features = ["blocking"] }
rss = "2"
serde = { version = "1", features = ["derive"] }
