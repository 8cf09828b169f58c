[package]
name = "docpack"
version = "0.1.0"
edition = "2021"
publish = false

[dependencies]
encoding_rs = "=0.8.44"
zip = { version = "=2.6.1", default-features = false, features = ["deflate"] }
quick-xml = "=0.37.5"
clap = { version = "=4.6.7", features = ["derive"] }
serde = { version = "=1.0.229", features = ["derive"] }
serde_json = "=1.0.154"
walkdir = "=2.5.0"
eframe = { version = "0.29", default-features = false, features = ["default_fonts", "glow", "x11"] }
