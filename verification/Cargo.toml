[package]
name = "dircontext"
version = "0.1.0"
edition = "2021"
publish = false

[dependencies]
ascii_tree = "*"
regex = "*"
anyhow = "*"
ignore = "*"
clap = { version = "*", features = ["derive"] }
