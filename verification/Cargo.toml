[package]
name = "freshos"
version = "0.1.0"
edition = "2021"
publish = false

[dependencies]
serde_json = "1"
rhai = "1"
uefi = { version = "*", features = ["alloc"] }
x86_64 = { version = "*", default-features = false, features = ["instructions"] }
