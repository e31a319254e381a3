[package]
name = "slugtext"
version = "0.1.0"
edition = "2021"
publish = false

[dependencies]
ttf-parser = "0.25"
bevy = { version = "0.17", default-features = false, features = ["bevy_pbr"] }
