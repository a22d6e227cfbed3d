[package]
name = "ansible_core"
version = "0.1.0"
edition = "2021"
publish = false

[dependencies]
libyaml-safer = "=0.3.0"
regex = "=1.13.1"
unicode-ident = "=1.0.27"

[dev-dependencies]
serde_json = "1"
