[package]
name = "cea_rs"
version = "0.1.0"
edition = "2021"
publish = false

[dependencies]
byteorder = "1"
hashbrown = "*"
tempfile = "3"
