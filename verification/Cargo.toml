[package]
name = "gitty"
version = "0.1.0"
edition = "2021"
publish = false

[dependencies]
regex = "1"
futures = "0.3"
tokio = { version = "1", features = ["rt", "process", "io-util"] }
