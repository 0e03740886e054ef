[package]
name = "raytracer"
version = "0.1.0"
edition = "2021"
publish = false

[dependencies]
image = { version = "0.23", default-features = false, features = ["png"] }
indicatif = "0.15"
rand = "0.7"
threadpool = "1.8"
