[package]
name = "linkbench"
version = "0.1.0"
edition = "2021"
publish = false

[dependencies]
anyhow = "1"
clap = { version = "4", features = ["derive"] }
eframe = { version = "0.31", default-features = false, features = ["default_fonts", "glow", "x11"] }
libc = "0.2"
libloading = "0.8"
serde = { version = "1", features = ["derive"] }
serde_json = "1"
