[package]
name = "airbender_analysis"
version = "0.1.0"
edition = "2021"
publish = false

[dependencies]
anyhow = "1"
clap = { version = "4", features = ["derive"] }
env_logger = "*"
log = "0.4"
rand = "*"
serde = { version = "1", features = ["derive"] }
serde_json = "1"
afl = "*"
unicorn-engine = "*"
melior = "*"
llzk = "*"
