[package]
name = "folders"
version = "1.0.0"
edition = "2021"
publish = false

[dependencies]
human-sort = "0.2"
clap = { version = "4", features = ["derive"] }
