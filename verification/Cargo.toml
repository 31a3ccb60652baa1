[package]
name = "ps5de-core"
version = "0.1.0"
edition = "2021"
publish = false

[dependencies]
clap = { version = "=4.6.7", features = ["derive"] }
plist = "=1.10.3"
eframe = { version = "=0.32.3", default-features = false, features = ["default_fonts", "glow", "x11"] }
