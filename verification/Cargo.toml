[package]
name = "region_map"
version = "0.1.0"
edition = "2021"
publish = false

[dependencies]
byteorder = "1"
flate2 = "1"
serde_json = "1"
image = { version = "0.25", default-features = false, features = ["png"] }
rayon = "1"
clap = { version = "2.34", default-features = false }
