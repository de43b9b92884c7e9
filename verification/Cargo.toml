[package]
name = "sfx_archive"
version = "0.1.0"
edition = "2021"
publish = false

[dependencies]
tar = "*"
zstd = "*"
clap = { version = "*", features = ["derive"] }
walkdir = "*"
console = "*"
anyhow = "*"
