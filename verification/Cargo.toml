[package]
name = "proxies_rotator"
version = "0.1.0"
edition = "2021"
publish = false

[dependencies]
arc-swap = "*"
tokio = { version = "*", features = ["net", "io-util", "rt-multi-thread", "macros", "signal"] }
clap = { version = "*", features = ["derive", "env"] }
log = "*"
env_logger = "*"
bstr = "*"
