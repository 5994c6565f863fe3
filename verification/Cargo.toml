[package]
name = "h4"
version = "0.1.0"
edition = "2021"
publish = false

[dependencies]
rquickjs = "=0.14.0"
arg = { version = "=0.4.5", features = ["std"] }
