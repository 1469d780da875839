[package]
name = "gbfr_lan"
version = "0.1.0"
edition = "2021"
publish = false

[dependencies]
base64 = "0.22"
chacha20poly1305 = "0.10"
serde_json = "1"
sha1 = "0.10"
