[package]
name = "libwallet"
version = "0.1.0"
edition = "2021"
publish = false

[dependencies]
chrono = "0.4"
colored = "2"
dirs = "5"
serde_json = "1"
uuid = { version = "0.8", features = ["v4"] }
