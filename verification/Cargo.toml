[package]
name = "fulleffect"
version = "0.1.0"
edition = "2021"
publish = false

[dependencies]
image = { version = "0.24", default-features = false, features = ["png", "jpeg"] }
rand = "0.4"
rayon = "1"
stopwatch = "0.0.7"
