[package]
name = "noican"
version = "0.1.0"
edition = "2021"
publish = false

[dependencies]
anyhow = "=1.0.104"
audioadapter-buffers = "=5.2.0"
clap = { version = "=4.6.7", features = ["derive"] }
crossbeam-queue = "=0.3.14"
hound = "=3.5.1"
realfft = "=3.5.1"
rtrb = "=0.3.6"
rubato = "=5.0.1"
serde = { version = "=1.0.229", features = ["derive"] }
serde_json = "=1.0.154"
sha2 = "=0.10.9"
sonora = "=0.2.0"
symphonia = { version = "=0.5.5", features = ["aac", "aiff", "alac", "caf", "isomp4"] }
thiserror = "=2.0.21"
