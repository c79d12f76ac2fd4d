[package]
name = "weaveflow"
version = "0.1.0"
edition = "2021"
publish = false

[dependencies]
serde_json = "=1.0.154"
sha2 = "=0.10.9"
regex = "=1.13.1"
base64 = "=0.22.1"
jsonschema = { version = "=0.60.2", default-features = false }
rust-yaml = "=1.1.0"
rquickjs = "=0.14.0"
chrono = { version = "=0.4.45", default-features = false }
rayon = "=1.12.0"
url = "2"
