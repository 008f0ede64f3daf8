[package]
name = "os"
version = "0.1.0"
edition = "2021"
publish = false

[dependencies]
x86_64 = { version = "=0.14.13", default-features = false, features = ["instructions"] }
bootloader = "=0.9.35"
spin = "=0.9.9"
linked_list_allocator = { version = "=0.9.1", default-features = false }
