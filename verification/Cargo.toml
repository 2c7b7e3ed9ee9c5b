[package]
name = "mold"
version = "0.1.0"
edition = "2021"
publish = false

[dependencies]
shellexpand = "*"
shell-words = "*"
semver = "*"
url = "*"
serde = "*"
serde_derive = "*"
serde_yaml = "*"
