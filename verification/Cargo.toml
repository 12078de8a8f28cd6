[package]
name = "runcher"
version = "0.1.0"
edition = "2021"
publish = false

[dependencies]
anyhow = "=1.0.104"
base64 = "=0.23.1"
flate2 = "=1.1.10"
interprocess = "=2.4.7"
open = "=5.4.5"
rand = "=0.10.3"
rayon = "=1.12.0"
regex = "=1.13.1"
rpfm_lib = "=4.7.4"
serde = { version = "=1.0.229", features = ["derive"] }
serde_json = "=1.0.154"
sha256 = "=1.6.0"
sysinfo = "=0.39.6"
thiserror = "=2.0.21"
url = "=2.5.8"
