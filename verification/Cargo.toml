[package]
name = "hay_os"
version = "0.1.0"
edition = "2021"
publish = false

[dependencies]
pc-keyboard = "=0.7.0"
x86_64 = { version = "=0.15.5", default-features = false, features = ["instructions"] }
spin = "=0.9.9"
lazy_static = "=1.5.1"
pic8259 = "=0.11.0"
linked_list_allocator = { version = "=0.10.6", default-features = false }
