[package]
name = "table_games"
version = "0.1.0"
edition = "2021"
publish = false

[dependencies]
env_logger = "*"
futures-util = "0.3"
log = "0.4"
rand = "0.8"
tokio = { version = "1", features = ["macros", "net", "rt-multi-thread", "sync", "time"] }
tokio-tungstenite = "*"
