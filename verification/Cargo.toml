[package]
name = "rotating_file"
version = "0.1.0"
edition = "2021"
publish = false

[dependencies]
chrono = "*"
flate2 = "*"
log = "*"
zip = { version = "*", default-features = false, features = ["deflate"] }
