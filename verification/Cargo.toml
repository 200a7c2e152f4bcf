[package]
name = "msgio"
version = "0.1.0"
edition = "2021"
publish = false

[dependencies]
bytes = "=0.4.12"
futures = "=0.1.31"
tokio-io = "=0.1.13"
tokio-core = "=0.1.18"
