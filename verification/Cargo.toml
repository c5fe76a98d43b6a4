[package]
name = "backtester"
version = "0.1.0"
edition = "2021"
publish = false

[dependencies]
chrono = "=0.4.45"
clap = "=3.2.25"
debot-db = "=1.0.5"
debot-market-analyzer = "<2"
env_logger = "=0.10.2"
log = "=0.4.34"
tokio = { version = "=1.54.1", features = ["full"] }
