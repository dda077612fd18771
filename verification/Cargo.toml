[package]
name = "ray_tracing"
version = "0.1.0"
edition = "2021"
publish = false

[dependencies]
generational-arena = "0.2"
partial-min-max = "0.4"
rand = "0.8"
image = { version = "0.24", default-features = false, features = ["bmp", "png", "jpeg"] }
rayon = "1"
serde = { version = "1", features = ["derive"] }
serde_json = "1"
