[package]
name = "voiceflow"
version = "0.1.0"
edition = "2021"
publish = false

[dependencies]
anyhow = "*"
chrono = { version = "*", default-features = false, features = ["clock", "std"] }
rusqlite = "*"
evdev = "*"
x11rb = "*"
eframe = { version = "*", default-features = false, features = ["default_fonts", "glow", "x11"] }
cpal = "*"
image = { version = "*", default-features = false, features = ["png"] }
parakeet-rs = "*"
