[package]
name = "oxide_kernel"
version = "0.1.0"
edition = "2021"
publish = false

[dependencies]
hmac = "=0.12.1"
sha2 = "=0.10.9"
x86_64 = { version = "=0.15.5", default-features = false, features = ["instructions"] }
smoltcp = "=0.12.0"
spin = "=0.9.9"
uart_16550 = "=0.3.2"
linked_list_allocator = "=0.10.6"
limine = "=0.6.5"
