[package]
name = "wispr_flow_helper"
version = "0.1.0"
edition = "2021"
publish = false

[dependencies]
serde_json = "1"
libc = "0.2"
log = "0.4"
env_logger = "0.11"
tokio = { version = "1", features = ["rt", "time"] }
zbus = { version = "5", default-features = false, features = ["tokio", "blocking-api"] }
atspi = { version = "0.25", default-features = false, features = ["tokio", "proxies", "connection"] }
wayland-client = "0.31"
wayland-protocols = { version = "0.32", features = ["client", "staging"] }
x11rb = { version = "0.13", features = ["xinput"] }
