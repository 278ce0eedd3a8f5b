[package]
name = "tui_majo"
version = "0.1.0"
edition = "2021"
publish = false

[dependencies]
ark-bls12-381 = "=0.5.0"
ark-ec = "=0.5.0"
ark-ff = "=0.5.0"
ark-serialize = "=0.5.0"
ark-std = "=0.5.0"
sha2 = "=0.10.9"
rand = "=0.9.5"
serde = { version = "=1.0.229", features = ["derive"] }
serde_json = "=1.0.154"
uuid = { version = "=1.29.0", features = ["v4"] }
thiserror = "=2.0.21"
tokio = { version = "=1.54.1", features = ["sync", "rt", "macros", "time"] }
tracing = "=0.1.44"
libp2p = { version = "=0.56.0", default-features = false, features = ["ed25519"] }
mdns-sd = "*"
