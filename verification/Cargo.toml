[package]
name = "trekbot"
version = "0.1.0"
edition = "2021"
publish = false

[dependencies]
anyhow = "1"
async-trait = "0.1"
clap = { version = "4", features = ["derive"] }
env_logger = "0.11"
log = "0.4"
rand = "0.8"
tokio = { version = "1", features = ["process", "io-util", "time", "rt-multi-thread", "macros"] }
