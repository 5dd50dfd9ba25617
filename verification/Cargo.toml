[package]
name = "kube_cel"
version = "0.1.0"
edition = "2021"
publish = false

[dependencies]
base64 = "0.22"
cel = "0.13"
ipnet = "2"
semver = "1"
serde = { version = "1", features = ["derive"] }
serde_json = "1"
url = "2"
