[package]
name = "fb2_clean"
version = "0.1.0"
edition = "2021"
publish = false

[dependencies]
quick-xml = "*"
zip = { version = "*", default-features = false, features = ["deflate"] }
clap = "*"
walkdir = "*"
