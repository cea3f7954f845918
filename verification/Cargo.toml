[package]
name = "beam"
version = "0.1.0"
edition = "2021"
publish = false

[dependencies]
clap = { version = "4", features = ["derive"] }
image = { version = "0.25", default-features = false, features = ["png"] }
imageproc = { version = "0.25", default-features = false }
indicatif = "0.17"
pest = "2"
pest_derive = "2"
pollster = "0.4"
rayon = "1"
vello = "0.5"
