[package]
name = "worldgen"
version = "0.1.0"
edition = "2021"

[dependencies]
rand = "0.4"
image = { version = "0.24", default-features = false, features = ["png"] }
