[package]
name = "quix"
version = "0.1.0"
edition = "2021"
publish = false

[dependencies]
base64 = "=0.21.7"
chrono = "=0.4.45"
clap = "=4.6.7"
colored = "=2.2.0"
colored_json = "=3.2.0"
eventsource = "=0.5.0"
home = "=0.5.12"
human-panic = "=1.2.3"
notify = "=5.2.0"
pcre2 = "=0.2.11"
reqwest = { version = "=0.10.10", features = ["blocking", "json"] }
serde = { version = "=1.0.229", features = ["derive"] }
serde_json = "=1.0.154"
walkdir = "=2.5.0"
zip = { version = "=0.6.6", default-features = false }
