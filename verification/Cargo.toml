[package]
name = "keelson"
version = "0.1.0"
edition = "2021"
publish = false

[dependencies]
serde_yaml = "*"

[dev-dependencies]
prost = "*"
prost-types = "*"
