[package]
name = "interpreter"
version = "0.1.0"
edition = "2021"
publish = false

[dependencies]
rand = "*"
anyhow = "*"
clap = { version = "*", features = ["cargo"] }
env_logger = "*"
log = "*"
minifb = "*"
