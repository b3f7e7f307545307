[package]
name = "crab_city"
version = "0.1.0"
edition = "2021"
publish = false

[dependencies]
ed25519-dalek = { version = "=2.2.0", features = ["rand_core"] }
rand = "=0.8.8"
sha2 = "=0.10.9"
data-encoding = "=2.11.1"
serde = { version = "=1.0.229", features = ["derive"] }
serde_json = "=1.0.154"
vt100 = "=0.16.2"
dirs = "=5.0.1"
ciborium = "=0.2.2"
anyhow = "=1.0.104"
nix = { version = "=0.29.0", features = ["signal", "process"] }
which = "=6.0.3"
chrono = "=0.4.45"
tokio = { version = "1", features = ["rt", "sync", "time", "macros"] }
portable-pty = "0.8"
