[package]
name = "vm_snapshot"
version = "0.1.0"
edition = "2021"
publish = false

[dependencies]
crossbeam-channel = "=0.5.17"
libc = "=0.2.191"
log = "=0.4.35"
serde = { version = "=1.0.229", features = ["derive"] }
vm-memory = { version = "=0.17.1", features = ["backend-mmap"] }
