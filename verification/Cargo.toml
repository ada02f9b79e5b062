[package]
name = "fox_tools"
version = "0.1.0"
edition = "2021"
publish = false

[dependencies]
chrono = "0.4"
colored = "*"
env_logger = "0.11"
espflash = { version = "4", default-features = false, features = ["serialport"] }
futures-util = "0.3"
indicatif = "*"
log = "0.4"
mdns = "3"
serialport = { version = "4", default-features = false }
tokio = { version = "1", features = ["fs", "io-util", "macros", "net", "rt-multi-thread", "sync", "time"] }
tokio-serial = { version = "5", default-features = false }
tokio-tungstenite = "*"
