[package]
name = "fast_record"
version = "0.1.0"
edition = "2021"
publish = false

[dependencies]
arrow = "*"
clap = { version = "*", features = ["derive"] }
indicatif = "*"
rayon = "*"
