[package]
name = "avi_core"
version = "0.1.0"
edition = "2021"
publish = false

[dependencies]
regex = "1"
serde = { version = "1", features = ["derive"] }
serde_json = "1"
rhai = "1"
rhai-fs = "*"
rhai-url = "*"
rumqttd = "*"
dirs = "*"
terminal_size = "*"
