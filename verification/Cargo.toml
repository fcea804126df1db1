[package]
name = "ureq"
version = "2.3.1"
edition = "2021"
publish = false

[dependencies]
chunked_transfer = "1"
dns-parser = "0.8"
encoding_rs = "0.8"
once_cell = "1"
rustls = "0.20"
serde_json = "1"
webpki-roots = "0.22"
