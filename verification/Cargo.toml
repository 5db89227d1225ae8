[package]
name = "hwr_hod_parser"
version = "0.1.0"
edition = "2021"
publish = false

[dependencies]
byteorder = "1"
meshopt = "*"
image = { version = "*", default-features = false, features = ["png"] }
image_dds = "*"
texpresso = "*"
base64 = "*"
