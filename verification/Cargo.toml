[package]
name = "app_powerd_core"
version = "2.0.0"
edition = "2021"
publish = false

[dependencies]
anyhow = "=1.0.104"
async-trait = "0.1"
clap = { version = "=4.6.7", features = ["derive"] }
humantime-serde = "=1.1.1"
inotify = { version = "=0.11.5", features = ["stream"] }
nix = { version = "=0.29.0", features = ["fs", "process", "resource", "signal", "user"] }
regex = "=1.13.1"
serde = { version = "=1.0.229", features = ["derive"] }
serde_json = "=1.0.154"
serde_yaml_ng = "=0.10.0"
thiserror = "2"
tokio = { version = "=1.54.1", features = ["full"] }
tokio-stream = "0.1"
tokio-util = "0.7"
tracing = "=0.1.44"
tracing-subscriber = { version = "=0.3.23", features = ["env-filter"] }
wayland-client = "=0.31.15"
wayland-protocols-wlr = { version = "=0.3.12", features = ["client"] }
x11rb = { version = "=0.13.2", features = ["screensaver"] }
zbus = "=5.19.0"
