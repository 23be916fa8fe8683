[package]
name = "scriptify"
version = "0.1.0"
edition = "2021"
publish = false

[dependencies]
anyhow = "1.0.86"
clap = { version = "4.5.8", features = ["derive"] }
