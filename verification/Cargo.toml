[package]
name = "ructe"
version = "0.14.0"
edition = "2021"
publish = false

[dependencies]
base64 = "0.13"
md5 = "0.7"
bytecount = "0.6"
rsass = "0.25"

[dev-dependencies]
nom = "7"
