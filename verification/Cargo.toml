[package]
name = "yantrik_ui"
version = "0.1.0"
edition = "2021"
publish = false

[dependencies]
chrono = { version = "0.4", default-features = false, features = ["std", "clock"] }
libc = "0.2"
serde_json = "1"
serde_yaml = "0.9"
slint = { version = "1", default-features = false, features = ["std", "compat-1-2"] }
tracing = "0.1"
