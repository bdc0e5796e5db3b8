[package]
name = "vmod_fileserver"
version = "0.1.0"
edition = "2021"
publish = false

[dependencies]
chrono = { version = "=0.4.45", features = ["serde"] }
openat = "=0.1.21"
serde = { version = "=1.0.229", features = ["derive"] }
serde_json = "=1.0.154"
varnish = { version = "=0.8.0", features = ["ffi"] }
yaml_serde = "=0.10.7"
