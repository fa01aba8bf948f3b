[package]
name = "dmgr"
version = "0.1.0"
edition = "2021"
publish = false

[dependencies]
serde = { version = "1", features = ["derive"] }
serde_json = "1"
thiserror = "1"
log = "0.4"
env_logger = "0.11"
tokio = { version = "1", features = ["rt-multi-thread", "macros", "process", "time"] }
libc = "0.2"
zbus = { version = "4", default-features = false, features = ["tokio"] }
