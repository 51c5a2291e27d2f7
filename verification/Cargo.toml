[package]
name = "colbench"
version = "0.1.0"
edition = "2021"
publish = false

[dependencies]
anyhow = "*"
arrow = "*"
arrow-csv = "*"
arrow-json = "*"
async-trait = "*"
bytes = "*"
clap = { version = "*", features = ["derive"] }
crossbeam-channel = "*"
env_logger = "*"
futures = "*"
indicatif = "*"
libc = "*"
parquet = { version = "*", features = ["arrow", "async"] }
rand = "0.8"
rand_distr = "0.4"
tokio = { version = "*", features = ["full"] }
walkdir = "*"
