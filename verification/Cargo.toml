[package]
name = "real_ip"
version = "0.1.0"
edition = "2021"
publish = false

[dependencies]
comma-separated = "*"
http = "*"
ipnetwork = { version = "*", default-features = false }
rfc7239 = "*"
