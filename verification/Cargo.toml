[package]
name = "pikpak"
version = "0.1.0"
edition = "2021"
publish = false

[dependencies]
bytes = "*"
path-clean = "*"
reqwest = { version = "*", default-features = false }
tokio = { version = "*", features = ["rt-multi-thread", "macros", "fs", "io-util", "sync", "time"] }
tokio-util = "*"
