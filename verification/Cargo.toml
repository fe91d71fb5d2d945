[package]
name = "rkl"
version = "0.1.0"
edition = "2021"
publish = false

[dependencies]
ipnetwork = { version = "=0.21.1", default-features = false }
regex = "=1.13.1"
dotenvy = "=0.15.7"
anyhow = "=1.0.104"
log = "=0.4.35"
tokio = { version = "=1.54.1", features = ["sync", "rt"] }
