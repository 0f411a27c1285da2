[package]
name = "image_diff"
version = "0.1.0"
edition = "2021"
publish = false

[dependencies]
image = { version = "0.24", default-features = false, features = ["png", "jpeg"] }
palette = "0.6"
async-std = "1"
ffmpeg-next = "4.4"
iced = "0.4"
