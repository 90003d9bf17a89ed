[package]
name = "flush"
version = "0.1.0"
edition = "2021"
publish = false

[dependencies]
regex = "*"
rand = "*"
reedline = "*"
chrono = "*"
users = "*"
xattr = "*"
