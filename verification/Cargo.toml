[package]
name = "vpk_plumber"
version = "0.1.0"
edition = "2021"
publish = false

[dependencies]
crc = "3"
filebuffer = "1"
lzham-alpha-sys = "*"
