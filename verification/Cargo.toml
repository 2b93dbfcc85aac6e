[package]
name = "go2web"
version = "0.1.0"
edition = "2021"
publish = false

[dependencies]
native-tls = "*"
reqwest = "*"
scraper = "*"
serde = { version = "*", features = ["derive"] }
serde_json = "*"
tokio = { version = "*", features = ["macros", "rt-multi-thread"] }
