[package]
name = "icns"
version = "0.2.0"
edition = "2021"
publish = false

[dependencies]
byteorder = "1"
clap = "2"
image = { version = "0.23", default-features = false, features = ["png"] }
rayon = "1"
