[package]
name = "save_manager"
version = "0.1.0"
edition = "2021"
publish = false

[dependencies]
chrono = "=0.4.45"
sha2 = "=0.10.9"
serde = { version = "=1.0.229", features = ["derive"] }
serde_json = "=1.0.154"
notify = "=8.2.1"
log = "=0.4.34"
sysinfo = "=0.39.6"

[dev-dependencies]
tempfile = "3"
