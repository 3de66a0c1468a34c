[package]
name = "grim_rs"
version = "0.1.0"
edition = "2021"
publish = false

[dependencies]
image = "*"
wayland-client = "*"
wayland-protocols = { version = "*", features = ["client", "unstable"] }
wayland-protocols-wlr = { version = "*", features = ["client"] }
memmap2 = "*"
tempfile = "*"
