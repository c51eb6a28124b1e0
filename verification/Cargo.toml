[package]
name = "assetio"
version = "0.1.0"
edition = "2021"
publish = false

[dependencies]
byteorder = "1"
clap = { version = "3", features = ["derive"] }
memmap = "0.7"
walkdir = "2"
