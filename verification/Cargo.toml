[package]
name = "cam_to_hue"
version = "0.1.0"
edition = "2021"
publish = false

[dependencies]
exoquant = "*"
image = { version = "*", default-features = false, features = ["png"] }
philipshue = "*"
rscam = "*"
