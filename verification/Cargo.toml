[package]
name = "polished_boot"
version = "0.1.0"
edition = "2021"
publish = false

[dependencies]
x86_64 = { version = "=0.15.5", default-features = false, features = ["instructions"] }
xmas-elf = "=0.10.0"
uefi = { version = "=0.41.0", features = ["alloc"] }
log = "=0.4.35"
