[package]
name = "bini_server"
version = "0.1.0"
edition = "2021"
publish = false

[dependencies]
axum = "0.8"
http-body-util = "0.1"
local-ip-address = "0.6"
reqwest = { version = "0.12", default-features = false }
serde_json = "1"
tokio = { version = "1", features = ["full"] }
tower-http = { version = "0.6", features = ["compression-br", "compression-deflate", "compression-gzip", "cors", "fs", "limit", "set-header", "timeout"] }
uuid = { version = "1", features = ["v4"] }
