[package]
name = "c41_darkroom"
version = "0.1.0"
edition = "2021"
publish = false

[dependencies]
anyhow = "1"
lcms2 = "6"
nalgebra = "0.33"
ndarray = "0.16"
rayon = "1"
serde = { version = "1", features = ["derive"] }
serde_json = "1"
zip = { version = "2", default-features = false, features = ["deflate"] }
image = { version = "0.25", default-features = false, features = ["png", "jpeg"] }
eframe = { version = "0.29", default-features = false, features = ["default_fonts", "glow", "x11"] }
rfd = { version = "0.15", default-features = false, features = ["xdg-portal", "async-std"] }
arboard = { version = "3", default-features = false }
