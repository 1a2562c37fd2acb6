[package]
name = "mp3s"
version = "0.1.0"
edition = "2021"
publish = false

[dependencies]
walkdir = "2"
image = { version = "0.24", default-features = false, features = ["png", "jpeg", "bmp"] }
eframe = { version = "=0.22.0", default-features = false, features = ["glow", "default_fonts"] }
egui = "=0.22.0"
egui_extras = "=0.22.0"
id3 = "1"
dirs = "5"
log = "0.4"
env_logger = { version = "0.11", default-features = false }
