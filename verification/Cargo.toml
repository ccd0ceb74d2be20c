[package]
name = "logs"
version = "0.1.0"
edition = "2021"
publish = false

[dependencies]
brz-ds = "*"
brz-metrics = "*"
thiserror = "2"
time = "0.3"
tracing = "0.1"
tracing-subscriber = { version = "0.3", features = ["env-filter"] }
