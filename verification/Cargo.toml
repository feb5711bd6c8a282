[package]
name = "safe_decimal"
version = "0.1.0"
edition = "2021"
publish = false

[dependencies]
schemars = "*"
serde = "*"
serde_json = "*"
thiserror = "*"
