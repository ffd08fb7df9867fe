[package]
name = "mei"
version = "0.1.0"
edition = "2021"
publish = false

[dependencies]
aes-gcm = "*"
brotli = "*"
clap = "*"
rand = "*"
rpassword = "*"
scrypt = "*"
walkdir = "*"
