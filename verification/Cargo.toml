[package]
name = "onejudge"
version = "0.1.0"
edition = "2021"
publish = false

[dependencies]
clap = { version = "=4.6.7", features = ["derive"] }
oneharness-core = "=0.13.2"
onemessagebus-agent = "*"
rustix = { version = "1", features = ["process"] }
serde = { version = "=1.0.229", features = ["derive"] }
serde_json = "=1.0.154"
serde_yaml_ng = "=0.10.0"
signal-hook = "*"
thiserror = "=2.0.21"
ureq = "3"
