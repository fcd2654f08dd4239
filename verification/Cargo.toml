[package]
name = "quados"
version = "0.1.0"
edition = "2021"
publish = false

[dependencies]
bitflags = "=2.13.2"
buddy_system_allocator = "=0.13.0"
lock_api = "=0.5.0"
log = "=0.4.34"
spin = "=0.12.3"
syscalls = "=0.8.1"
tock-registers = "=0.10.1"
virtio-drivers = "=0.13.0"
xmas-elf = "=0.10.0"
