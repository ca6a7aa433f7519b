[package]
name = "bw_img"
version = "0.1.0"
edition = "2021"
publish = false

[dependencies]
flate2 = "1"
thiserror = "1"
ffmpeg-next = "*"
image = { version = "*", default-features = false, features = ["png"] }
