[package]
name = "iroga"
version = "0.1.0"
edition = "2021"
publish = false

[dependencies]
fast-glob = "*"
lzma-rs = "*"
lzs = "*"
walkdir = "*"
thiserror = "*"
clap = { version = "*", features = ["derive"] }
