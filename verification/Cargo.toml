[package]
name = "encoder"
version = "0.1.0"
edition = "2021"
publish = false

[dependencies]
anyhow = "1"
byteorder = "1"
clap = { version = "3", features = ["derive"] }
colored = "2"
image = { version = "0.24", default-features = false, features = ["bmp", "png", "jpeg"] }
