[package]
name = "arduino2nix"
version = "0.1.0"
edition = "2021"
publish = false

[dependencies]
anyhow = "=1.0.104"
argh = "=0.1.19"
colog = "=1.4.0"
convert_case = "=0.12.0"
log = "=0.4.34"
semver = { version = "=1.0.28", features = ["serde"] }
serde = { version = "=1.0.229", features = ["derive"] }
serde_json = "=1.0.151"
serde_yaml_ng = "=0.10.0"
ureq = "=3.4.2"
