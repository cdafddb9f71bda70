[package]
name = "bootcore"
version = "0.1.0"
edition = "2021"
publish = false

[dependencies]
bitflags = "2"
clap = { version = "4", features = ["derive"] }
snafu = "0.8"
