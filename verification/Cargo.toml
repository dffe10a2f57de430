[package]
name = "template_match"
version = "0.1.0"
edition = "2021"
publish = false

[dependencies]
rayon = "1"
image = { version = "0.25", default-features = false, features = ["png"] }
imageproc = { version = "0.25", default-features = false }
