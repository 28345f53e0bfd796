[package]
name = "parlor"
version = "0.1.0"
edition = "2021"
publish = false

[dependencies]
imbl = "=7.0.2"
rand = "=0.9.5"
tokio = { version = "=1.54.1", features = ["full"] }
futures = "=0.3.34"
scheme-rs = { version = "=0.2.0", features = ["async", "tokio"] }
