[package]
name = "hayate_fileview"
version = "0.1.0"
edition = "2021"
publish = false

[dependencies]
unicode-width = "*"
vte = "*"
libc = "0.2"
image = { version = "0.25", default-features = false, features = ["png", "jpeg"] }
tiny-skia = "*"
cosmic-text = "*"
xkbcommon = "*"
