[package]
name = "xrs"
version = "0.1.0"
edition = "2021"
publish = false

[dependencies]
encoding_rs = "=0.8.44"
memchr = "=2.8.3"
quick-xml = "=0.22.0"
serde = "1"
