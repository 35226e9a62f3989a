[package]
name = "sortify"
version = "0.1.0"
edition = "2021"
publish = false

[dependencies]
anyhow = "*"
chrono = "*"
clap = { version = "*", features = ["derive"] }
env_logger = "*"
indicatif = "*"
log = "*"
nom-exif = "*"
num_cpus = "*"
rayon = "*"
walkdir = "*"
xxhash-rust = { version = "*", features = ["xxh3"] }
