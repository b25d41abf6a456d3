[package]
name = "mer"
version = "0.1.0"
edition = "2021"
publish = false

[dependencies]
anyhow = "=1.0.104"
base64 = "=0.23.1"
clap = { version = "=4.6.7", features = ["derive"] }
flate2 = "=1.1.10"
harfrust = "=0.12.0"
merman = { version = "=0.9.0", features = ["ascii"] }
merman-core = { version = "=0.9.0", default-features = false }
resvg = "=0.49.0"
rustix = { version = "=1.1.6", features = ["event", "termios"] }
serde = { version = "=1.0.229", features = ["derive"] }
serde_json = "=1.0.154"
signal-hook = "=0.4.6"
skrifa = "=0.44.0"
toml = "=1.1.8"
