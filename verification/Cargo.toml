[package]
name = "pv"
version = "0.1.0"
edition = "2021"
publish = false

[dependencies]
base64 = "0.22"
serde_json = "1"
image = { version = "0.25", default-features = false, features = ["png", "jpeg", "pnm"] }
