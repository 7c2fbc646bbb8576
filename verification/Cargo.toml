[package]
name = "whoisit"
version = "0.1.0"
edition = "2021"
publish = false

[dependencies]
futures = "0.3"
tokio = { version = "1", features = ["io-util", "macros", "net", "process", "rt-multi-thread"] }
tokio-util = { version = "0.7", features = ["codec"] }
