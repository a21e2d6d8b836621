[package]
name = "connect4000"
version = "0.1.0"
edition = "2021"
publish = false

[dependencies]
env_logger = "=0.11.11"
log = "=0.4.34"
tokio = { version = "=1.54.1", features = ["macros", "rt-multi-thread", "sync"] }
wtransport = { version = "=0.7.2", features = ["dangerous-configuration"] }
