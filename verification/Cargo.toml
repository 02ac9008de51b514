[package]
name = "pinnacle"
version = "0.1.0"
edition = "2021"
publish = false

[dependencies]
argon2 = { version = "0.5", default-features = false, features = ["alloc", "zeroize"] }
uefi = { version = "*", features = ["alloc"] }
zeroize = { version = "1", features = ["alloc"] }
