[package]
name = "nbody_ring"
version = "0.1.0"
edition = "2021"
publish = false

[dependencies]
clap = { version = "4", features = ["derive"] }
env_logger = "0.10"
log = "0.4"
mpi = { version = "0.6", features = ["derive"] }
