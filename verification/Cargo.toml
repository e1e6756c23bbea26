[package]
name = "eebook"
version = "0.1.0"
edition = "2021"
publish = false

[dependencies]
tl = "=0.7.8"
regex = "=1.13.1"
druid = { version = "=0.8.3", features = ["image", "jpeg", "png"] }
eframe = "=0.15.0"
epub = "=1.2.4"
epub-builder = "=0.4.10"
image = "=0.24.9"
walkdir = "=2.5.0"
zip-extensions = "=0.6.2"
