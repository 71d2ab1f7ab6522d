[package]
name = "dfss"
version = "0.1.0"
edition = "2021"
publish = false

[dependencies]
uuid = { version = "1", features = ["v4"] }
rand = "0.9"
fs2 = "0.4"
