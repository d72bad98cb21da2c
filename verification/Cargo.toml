[package]
name = "omni_core"
version = "0.1.0"
edition = "2021"
publish = false

[dependencies]
anyhow = "=1.0.104"
async-trait = "=0.1.92"
base64 = "=0.22.1"
calamine = "=0.38.0"
clap = { version = "=4.6.7", features = ["derive"] }
csv = "=1.4.0"
flate2 = "=1.1.10"
futures = "=0.3.34"
image = "=0.25.10"
infer = "=0.22.0"
notify = "=8.2.1"
quick-xml = { version = "=0.42.0", features = ["serialize"] }
serde = { version = "=1.0.229", features = ["derive"] }
serde_json = "=1.0.154"
serde_yaml = "=0.9.34"
sevenz-rust2 = "=0.24.2"
tar = "=0.4.46"
thiserror = "=2.0.21"
tokio = { version = "=1.54.1", features = ["full"] }
toml = "=0.8.23"
walkdir = "=2.5.0"
zip = "=9.2.2"

[dev-dependencies]
tempfile = "=3.27.0"
