[package]
name = "kernel"
version = "0.1.0"
edition = "2021"
publish = false

[dependencies]
arrayvec = { version = "0.7", default-features = false }
async-task = { version = "4", default-features = false }
bitmap-allocator = "0.2"
buddy_system_allocator = "*"
fdt = "0.1"
log = "0.4"
riscv = "0.12"
sbi-rt = { version = "*", features = ["legacy"] }
spin = "0.9"
