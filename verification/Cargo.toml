[package]
name = "op_fast"
version = "0.1.0"
edition = "2021"
publish = false

[dependencies]
anyhow = "=1.0.104"
clap = { version = "=4.6.7", features = ["derive"] }
dirs-sys = "=0.5.0"
env_logger = "=0.11.11"
globset = "=0.4.21"
heed = "=0.22.1"
humantime = "=2.4.0"
keyring-core = "=1.0.1"
linux-keyutils-keyring-store = "=1.0.0"
log = "=0.4.35"
serde = { version = "=1.0.229", features = ["derive"] }
toml = "=0.9.8"
which = "=8.0.6"

[dev-dependencies]
fancy-regex = "=0.20.0"
