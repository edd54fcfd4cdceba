[package]
name = "fan_control"
version = "0.1.0"
edition = "2021"
publish = false

[dependencies]
rppal = "*"
tokio = { version = "1", features = ["macros", "rt-multi-thread", "time", "fs", "signal"] }
tokio-util = "*"
