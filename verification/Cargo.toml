[package]
name = "mcquery"
version = "0.1.0"
edition = "2021"
publish = false

[dependencies]
rocket = { version = "0.5", features = ["json"] }
rocket_cors = "0.6"
rust-raknet = "*"
serde = { version = "1", features = ["derive"] }
tokio = { version = "1", features = ["net", "time", "io-util"] }
trust-dns-resolver = "0.22"
