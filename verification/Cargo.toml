[package]
name = "xilem"
version = "0.1.0"
edition = "2021"
publish = false

[dependencies]
tokio = { version = "1", features = ["rt", "sync"], default-features = false }
druid-shell = "*"
