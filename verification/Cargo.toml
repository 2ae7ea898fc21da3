[package]
name = "vetterd"
version = "0.1.0"
edition = "2021"
publish = false

[dependencies]
block2 = "*"
dispatch2 = "*"
gtk4 = "*"
objc2 = "*"
objc2-app-kit = "*"
objc2-foundation = "*"
objc2-user-notifications = "*"
serde = { version = "1", features = ["derive"] }
serde_json = "1"
serde_yaml_ng = "*"
signal-hook = "*"
tempfile = "3"
thiserror = "2"
zbus = "5"
