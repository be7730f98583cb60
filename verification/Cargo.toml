[package]
name = "common"
version = "0.1.0"
edition = "2021"
publish = false

[dependencies]
itertools = "*"
clap = { version = "*", features = ["derive"] }
log = "*"
env_logger = "*"
text_io = "*"
inquire = "*"
thiserror = "*"
tokio = { version = "*", features = ["fs", "io-util", "rt", "macros"] }
futures = "*"
async-trait = "*"
