[package]
name = "mineshield_proxy"
version = "0.1.0"
edition = "2021"
publish = false

[dependencies]
byteorder = "=1.5.0"
dashmap = "=5.5.3"
env_logger = "=0.10.2"
hyper = { version = "=0.14.32", features = ["server", "client", "http1", "tcp"] }
lazy_static = "=1.5.1"
log = "=0.4.35"
prometheus = { version = "=0.13.4", default-features = false }
proxy-protocol = "=0.5.0"
rusqlite = { version = "=0.31.0", features = ["bundled"] }
serde = { version = "=1.0.229", features = ["derive"] }
serde_json = "=1.0.154"
serde_yaml = "=0.9.34"
tokio = { version = "=1.54.1", features = ["full"] }
