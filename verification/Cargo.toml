[package]
name = "mikanos-rs-loader"
version = "0.1.0"
edition = "2021"
publish = false

[dependencies]
goblin = { version = "*", default-features = false, features = ["std", "elf32", "elf64", "endian_fd"] }
log = "0.4"
uefi = { version = "*", features = ["alloc", "logger"] }
