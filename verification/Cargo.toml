[package]
name = "shm_buffer_pool"
version = "0.1.0"
edition = "2021"
publish = false

[dependencies]
anyhow = "1"
ash = "=0.38.0"
env_logger = "0.11"
log = "0.4"
memmap2 = "0.9"
rustix = { version = "1", features = ["fs"] }
wayland-client = { version = "0.31", features = ["system", "dlopen"] }
wayland-protocols = { version = "0.32", features = ["client", "staging"] }
