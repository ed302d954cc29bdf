[package]
name = "raytracer"
version = "0.1.0"
edition = "2021"
publish = false

[dependencies]
rand = "0.4"
num-traits = "0.2"
clap = "2"
derive-new = "0.5"
image = { version = "0.24", default-features = false, features = ["png", "jpeg"] }
minifb = "*"
