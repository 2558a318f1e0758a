[package]
name = "tetris_server"
version = "0.1.0"
edition = "2021"
publish = false

[dependencies]
futures-util = { version = "0.3", features = ["sink"] }
http = "1"
httparse = "1"
rand = "0.8"
serde_json = "1"
tokio = { version = "1", features = ["full"] }
tokio-utils = "*"
tokio-websockets = { version = "*", features = ["server", "sha1_smol"] }
url = "2"
uuid = { version = "1", features = ["v4"] }
