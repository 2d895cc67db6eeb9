[package]
name = "wry-bindgen"
version = "0.1.0"
edition = "2021"
publish = false

[dependencies]
base64 = "0.22"
http = "1"
async-channel = "2"
futures-channel = "0.3"
futures-util = "0.3"
spin = "0.9"
pollster = "0.4"
inventory = "0.3"
