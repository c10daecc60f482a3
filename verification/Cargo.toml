[package]
name = "logos"
version = "0.1.0"
edition = "2021"
publish = false

[dependencies]
argon2 = "0.5"
uefi = "*"
