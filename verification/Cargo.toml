[package]
name = "s2replay"
version = "0.1.0"
edition = "2021"
publish = false

[dependencies]
byteorder = "1"
bzip2 = "*"
flate2 = "1"
serde = "1"

[dev-dependencies]
serde_json = "1"
