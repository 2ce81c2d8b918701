[package]
name = "surge"
version = "1.0.0"
edition = "2021"
publish = false

[dependencies]
anyhow = "1"
chrono = "0.4"
clap = { version = "4", features = ["derive"] }
crossterm = "0.27"
dirs = "5"
humansize = "2"
image = { version = "0.24", default-features = false, features = ["png", "jpeg", "gif", "bmp", "ico", "tiff", "webp"] }
ratatui = "0.26"
sha2 = "0.10"
sysinfo = "0.30"
walkdir = "2"
