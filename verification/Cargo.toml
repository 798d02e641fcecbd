[package]
name = "vmm"
version = "0.1.0"
edition = "2021"
publish = false

[dependencies]
vm-memory = { version = "*", features = ["backend-mmap"] }
kvm-ioctls = "*"
kvm-bindings = "*"
libc = "*"
vmm-sys-util = "*"
bincode = "1"
serde = { version = "*", features = ["derive"] }
