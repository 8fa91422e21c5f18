[package]
name = "wrapperd"
version = "0.0.2"
edition = "2021"
publish = false

[dependencies]
httparse = "1"
serde_json = "1"
