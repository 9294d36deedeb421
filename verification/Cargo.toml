[package]
name = "prime_walk"
version = "0.1.0"
edition = "2021"
publish = false

[dependencies]
clap = { version = "*", features = ["derive"] }
eframe = { version = "*", default-features = false, features = ["glow", "x11", "default_fonts"] }
