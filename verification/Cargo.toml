[package]
name = "image_dedup"
version = "0.1.0"
edition = "2021"
publish = false

[dependencies]
image = { version = "=0.25.10", default-features = false, features = ["jpeg", "png", "webp"] }
image_hasher = "=3.1.1"
rayon = "1"
serde = { version = "1", features = ["derive"] }
trash = "5"
walkdir = "2"
