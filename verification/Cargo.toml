[package]
name = "articara"
version = "0.1.0"
edition = "2021"
publish = false

[dependencies]
eframe = { version = "=0.34.3", default-features = false, features = ["default_fonts", "glow", "x11"] }
nalgebra = "=0.35.0"
serde = { version = "=1.0.229", features = ["derive"] }
