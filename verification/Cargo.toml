[package]
name = "dexgen"
version = "0.1.0"
edition = "2021"
publish = false

[dependencies]
anyhow = "*"
clap = { version = "*", features = ["derive"] }
kuchikiki = "*"
rayon = "*"
reqwest = { version = "*", default-features = false, features = ["blocking"] }
url = "*"
urlencoding = "*"
