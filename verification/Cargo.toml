[package]
name = "dotcfg"
version = "0.3.0"
edition = "2021"
publish = false

[dependencies]
serde = { version = "1", features = ["derive"] }
serde_json = "1"
toml = "*"
serde_yaml_ng = "*"
etcetera = "*"
home = "*"
thiserror = "*"
