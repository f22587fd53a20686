[package]
name = "dc_api_core"
version = "0.1.0"
edition = "2021"
publish = false

[dependencies]
sha1 = "0.10"
base64 = "0.13"
bufstream = "0.1"
threadpool = "1"
tungstenite = "0.21"
