[package]
name = "setupvault"
version = "0.1.0"
edition = "2021"
publish = false

[dependencies]
uuid = { version = "*", features = ["v4"] }
chrono = "*"
walkdir = "*"
dirs = "*"
tokio = { version = "*", features = ["rt-multi-thread"] }
anyhow = "*"
clap = { version = "*", features = ["derive"] }
