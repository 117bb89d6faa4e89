[package]
name = "psybeam"
version = "0.1.0"
edition = "2021"
publish = false

[dependencies]
anyhow = "*"
cosmic-text = "*"
espy = "*"
espystandard = "*"
tempfile = "*"
wayland-client = "*"
wayland-protocols-wlr = { version = "*", features = ["client"] }
