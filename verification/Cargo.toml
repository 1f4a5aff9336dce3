[package]
name = "hushwire"
version = "0.6.1"
edition = "2021"
publish = false

[dependencies]
anyhow = "1"
base64 = "0.22"
clap = { version = "4", features = ["derive"] }
ipnet = { version = "2", features = ["serde"] }
libc = "0.2"
rand = "0.8"
serde = { version = "1", features = ["derive"] }
signal-hook = "0.3"
snow = "0.10"
thiserror = "2"
toml = "0.8"
tracing = "0.1"
tracing-subscriber = { version = "0.3", features = ["env-filter", "json"] }
tun = "0.6"
x25519-dalek = { version = "2", features = ["static_secrets"] }
