[package]
name = "craps_sim"
version = "0.1.0"
edition = "2021"
publish = false

[dependencies]
rand = "0.8"
anyhow = "1"
clap = { version = "4", features = ["derive"] }
log = "0.4"
noisy_float = "0.2"
simple_logger = "*"
