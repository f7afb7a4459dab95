[package]
name = "rustsocket"
version = "0.1.0"
edition = "2021"
publish = false

[dependencies]
base64 = "0.21"
sha1 = "0.10"
