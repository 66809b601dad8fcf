[package]
name = "zcblock"
version = "0.1.0"
edition = "2021"
publish = false

[dependencies]
libc = "0.2"
serde = { version = "1", features = ["derive"] }
serde_json = "1"
sha2 = "0.10"
vhost = { version = "*", features = ["vhost-user-backend"] }
vhost-user-backend = "*"
virtio-bindings = "*"
virtio-queue = "*"
vm-memory = { version = "*", features = ["backend-mmap", "backend-atomic"] }
vmm-sys-util = "*"
