[package]
name = "conduit"
version = "0.1.0"
edition = "2021"
publish = false

[dependencies]
serde = { version = "=1.0.229", features = ["derive"] }
serde_json = "=1.0.154"
serde_yaml = "=0.9.34"
chrono = { version = "=0.4.45", features = ["serde"] }
tree-sitter = "=0.27.1"
tree-sitter-python = "=0.25.0"
uuid = { version = "1", features = ["v4"] }
prometheus-client = "*"
sysinfo = "*"
