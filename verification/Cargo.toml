[package]
name = "lsproxy"
version = "0.1.0"
edition = "2021"
publish = false

[dependencies]
glob = "*"
ignore = "*"
serde_json = "*"
url = "*"
uuid = { version = "*", features = ["v4"] }

[dev-dependencies]
tempfile = "*"
