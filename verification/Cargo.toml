[package]
name = "pathtracer"
version = "0.1.0"
edition = "2021"
publish = false

[dependencies]
anyhow = "1"
fastrand = "2"
fastrand-contrib = "*"
image = { version = "0.25", default-features = false, features = ["png", "rayon"] }
indicatif = "*"
rand = "0.9"
