[package]
name = "khaslana"
version = "0.1.0"
edition = "2021"
publish = false

[dependencies]
async-channel = "=2.5.0"
chrono = "=0.4.45"
directories = "=6.0.0"
git2 = { version = "=0.21.0", features = ["cred"] }
json5 = "=1.3.7"
rfd = "=0.17.2"
serde = { version = "=1.0.229", features = ["derive"] }
serde_json = "=1.0.154"
tracing = "=0.1.44"
tracing-subscriber = { version = "=0.3.23", features = ["env-filter"] }
unicode-segmentation = "=1.13.3"

[dev-dependencies]
tempfile = "=3.27.0"
