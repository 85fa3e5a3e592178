[package]
name = "uptime_checker"
version = "0.1.0"
edition = "2021"
publish = false

[dependencies]
fvm_sdk = "*"
fvm_shared = "*"
fvm_ipld_encoding = "*"
cid = "*"
serde = { version = "*", features = ["derive"] }
serde_json = "*"
