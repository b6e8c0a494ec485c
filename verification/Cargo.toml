[package]
name = "renderpool"
version = "0.1.0"
edition = "2021"
publish = false

[dependencies]
tokio = { version = "*", features = ["rt-multi-thread", "sync", "time", "process", "macros"] }
async-channel = "*"
async-trait = "*"
futures = "*"
