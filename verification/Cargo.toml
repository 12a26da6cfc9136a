[package]
name = "tg-s3-bot"
version = "1.1.0"
edition = "2021"
publish = false

[dependencies]
chrono = "0.4"
clap = { version = "4", features = ["derive"] }
reqwest = { version = "0.12", default-features = false, features = ["json", "rustls-tls"] }
serde_json = "1"
tokio = { version = "1", features = ["fs", "macros", "rt", "time"] }
tracing = "0.1"
uuid = { version = "1", features = ["v4"] }
