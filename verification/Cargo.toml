[package]
name = "pica_convert"
version = "0.1.0"
edition = "2021"
publish = false

[dependencies]
base64 = "0.22"
clap = { version = "4", features = ["derive"] }
image = { version = "0.25", default-features = false, features = ["png", "jpeg"] }
rayon = "1"
serde = { version = "1", features = ["derive"] }
serde-xml-rs = "*"
