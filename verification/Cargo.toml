[package]
name = "logirecon"
version = "0.1.0"
edition = "2021"
publish = false

[dependencies]
chrono = "=0.4.45"
calamine = { version = "=0.38.0", features = ["dates"] }
tracing-subscriber = "=0.3.23"
