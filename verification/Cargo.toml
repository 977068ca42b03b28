[package]
name = "heat_abnormal"
version = "0.1.0"
edition = "2021"
publish = false

[dependencies]
opencv = "*"
rfd = "*"
slint = { version = "1", default-features = false, features = ["std", "compat-1-2"] }
