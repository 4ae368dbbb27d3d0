[package]
name = "jpeglab"
version = "0.1.0"
edition = "2021"
publish = false

[dependencies]
bitvec = "1"
bytebuffer = "2"
clap = { version = "4", features = ["derive"] }
image = { version = "0.24", default-features = false, features = ["bmp"] }
