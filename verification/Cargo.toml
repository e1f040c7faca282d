[package]
name = "gitsnap"
version = "0.1.0"
edition = "2021"
publish = false

[dependencies]
anyhow = "1"
clap = { version = "4", features = ["derive"] }
colored = "*"
env_logger = "*"
git2 = "*"
humansize = "2"
infer = "*"
lazy_static = "1"
log = "0.4"
rayon = "1"
regex = "1"
tempfile = "3"
tokio = { version = "1", features = ["fs", "io-util", "rt-multi-thread", "macros"] }
url = "2"
walkdir = "2"
