[package]
name = "lclt_translator"
version = "0.1.0"
edition = "2021"
publish = false

[dependencies]
regex = "1.13"
serde = { version = "1", features = ["derive"] }
serde_json = "1"
tokio = { version = "1", features = ["sync", "time"] }
reqwest = { version = "0.12", default-features = false, features = ["json", "rustls-tls"] }
futures = "0.3"
