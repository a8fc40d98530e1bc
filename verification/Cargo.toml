[package]
name = "velosearch"
version = "0.1.0"
edition = "2021"
publish = false

[dependencies]
regex = "1"
form_urlencoded = "1"
flate2 = "1"
serde_json = "1"
anyhow = "1"
tracing = "0.1"
axum = "0.8"
tokio = { version = "1", features = ["rt-multi-thread", "macros", "net", "fs", "time", "sync", "io-util"] }
