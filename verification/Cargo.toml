[package]
name = "entropy_scan"
version = "0.1.0"
edition = "2021"
publish = false

[dependencies]
anyhow = "=1.0.104"
async-walkdir = "=2.2.0"
futures = "=0.3.34"
futures-lite = "=2.6.1"
infer = { version = "=0.22.0", default-features = false }
log = "=0.4.34"
tokio = { version = "=1.54.1", features = ["full"] }
tracing-subscriber = "=0.3.23"
