[package]
name = "tactical"
version = "0.1.0"
edition = "2021"
publish = false

[dependencies]
serde_json = "1"
heck = "0.3"
