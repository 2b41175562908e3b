[package]
name = "elusive"
version = "0.1.0"
edition = "2021"
publish = false

[dependencies]
anyhow = "1"
clap = { version = "4", features = ["derive"] }
env_logger = "*"
flate2 = "1"
libc = "0.2"
log = "0.4"
num_cpus = "1"
object = "*"
serde = { version = "1", features = ["derive"] }
serde_yaml = "*"
thiserror = "*"
walkdir = "2"
xz2 = "*"
zstd = { version = "*", features = ["zstdmt"] }
