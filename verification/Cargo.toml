[package]
name = "seldir"
version = "0.1.0"
edition = "2021"
publish = false

[dependencies]
bit = "0.1"
chrono = "0.4"
clap = { version = "4", features = ["cargo"] }
cursive = "*"
cursive-extras = "*"
