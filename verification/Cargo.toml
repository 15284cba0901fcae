[package]
name = "z_play"
version = "0.1.0"
edition = "2021"
publish = false

[dependencies]
axum = "=0.8.9"
axum-extra = { version = "=0.12.6", features = ["query"] }
env_logger = "=0.11.11"
flume = "=0.12.0"
jwalk = "=0.9.0"
log = "=0.4.34"
parking_lot = "=0.13.0"
rand = "=0.10.3"
rayon = "=1.12.0"
rustc-hash = "=2.1.3"
serde = { version = "=1.0.229", features = ["derive"] }
thiserror = "=2.0.21"
tokio = { version = "=1.54.1", features = ["rt-multi-thread", "fs", "io-util", "net", "time"] }
tower = "=0.5.3"
tower-http = { version = "=0.7.1", features = ["fs", "set-header"] }
urlencoding = "=2.1.3"
