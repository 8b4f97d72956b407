[package]
name = "rv_core"
version = "0.1.0"
edition = "2021"
publish = false

[dependencies]
regex = "1"
crc32fast = "1"
flate2 = "1"
zip = { version = "*", default-features = false, features = ["deflate"] }
