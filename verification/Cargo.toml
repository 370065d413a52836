[package]
name = "log_tailer"
version = "0.1.0"
edition = "2021"
publish = false

[dependencies]
url = "*"
tokio = { version = "*", features = ["full"] }
tokio-tungstenite = { version = "*", features = ["rustls-tls-native-roots"] }
futures-util = "*"
clap = { version = "*", features = ["derive"] }
env_logger = "*"
log = "*"
rustls = "*"
ic-agent = "*"
candid = "*"
