[package]
name = "gunicorn_autoscaler"
version = "0.1.0"
edition = "2021"
publish = false

[dependencies]
anyhow = "1"
hdrhistogram = { version = "7", default-features = false }
libc = "0.2"
signal-hook = "0.3"
tracing = "0.1"
tracing-subscriber = { version = "0.3", features = ["env-filter"] }
