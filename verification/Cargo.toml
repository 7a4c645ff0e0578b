[package]
name = "limestack_connector"
version = "0.1.0"
edition = "2021"
publish = false

[dependencies]
base64 = "0.22"
printers = "2"
log = "0.4"
env_logger = "0.11"
tokio = { version = "1", features = ["rt-multi-thread", "net", "macros"] }
tokio-tungstenite = "0.21"
futures-util = "0.3"
