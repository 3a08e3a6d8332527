[package]
name = "ktuctl"
version = "0.1.0"
edition = "2021"
publish = false

[dependencies]
anyhow = "1"
argon2 = "0.5"
bytes = "1"
chacha20poly1305 = "0.10"
chrono = "0.4"
clap = { version = "4", features = ["derive"] }
dns-lookup = "2"
env_logger = "0.11"
lazy_static = "1"
log = "0.4"
netlink-sys = "0.8"
rand = "0.8"
shlex = "1"
tokio = { version = "1", features = ["rt-multi-thread", "macros", "net", "process", "sync", "io-util"] }
