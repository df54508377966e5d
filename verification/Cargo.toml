[package]
name = "share_screen"
version = "0.1.0"
edition = "2021"
publish = false

[dependencies]
base64 = "*"
dashmap = "*"
png = "*"
vpx-encode = "*"
