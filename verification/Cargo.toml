[package]
name = "slideshow"
version = "0.1.0"
edition = "2021"
publish = false

[dependencies]
anyhow = "1"
clap = { version = "4", features = ["derive"] }
image = { version = "0.25", default-features = false, features = ["png"] }
indicatif = "0.17"
rand = "0.8"
rayon = "1"
walkdir = "2"
