[package]
name = "pebble"
version = "0.1.0"
edition = "2021"
publish = false

[dependencies]
jieba-rs = "*"
regex = "*"
serde = { version = "*", features = ["derive"] }
serde_json = "*"
redis = "*"
dotenvy = "*"
uuid = { version = "*", features = ["v4"] }
