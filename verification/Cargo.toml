[package]
name = "micro_http"
version = "0.1.0"
edition = "2021"
publish = false

[dependencies]
chrono = { version = "=0.4.23", default-features = false, features = ["std"] }
