[package]
name = "pointer_chasing"
version = "0.1.0"
edition = "2021"
publish = false

[dependencies]
alloc-madvise = { version = "=0.6.0", default-features = false }
clap = { version = "=4.6.7", features = ["derive"] }
libc = "=0.2.191"
rand = "=0.8.8"
serde = { version = "=1.0.229", features = ["derive"] }
serde_json = "=1.0.154"
size = "=0.6.0"
