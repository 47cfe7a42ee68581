[package]
name = "prometheus_query"
version = "0.1.0"
edition = "2021"
publish = false

[dependencies]
url = "*"
chrono = { version = "*", default-features = false, features = ["std"] }
