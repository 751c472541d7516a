[package]
name = "programmer_core"
version = "0.1.0"
edition = "2021"
publish = false

[dependencies]
md-5 = "=0.10.6"
sha2 = "=0.10.9"
serde = { version = "=1.0.229", features = ["derive"] }
serde_json = "=1.0.154"
chrono = "=0.4.45"
uuid = { version = "=1.29.0", features = ["v4"] }
csv = "=1.4.0"
base64 = "=0.22.1"
thiserror = "=2.0.21"
serialport = { version = "=4.10.1", default-features = false }
espflash = { version = "=4.7.0", default-features = false, features = ["serialport"] }
clap = { version = "=4.6.7", features = ["derive"] }
tempfile = "=3.27.0"
