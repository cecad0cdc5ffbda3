[package]
name = "hex"
version = "0.1.0"
edition = "2021"
publish = false

[dependencies]
rustc-hash = "2"
rand = "0.9"
tiny-skia = "0.11"
rayon = "1"
anyhow = "1"
