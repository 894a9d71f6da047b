[package]
name = "mongoproxy"
version = "0.1.0"
edition = "2021"
publish = false

[dependencies]
bytes = "=0.5.6"
clap = "=2.34.0"
flate2 = "1"
lazy_static = "=1.5.1"
libc = "=0.2.191"
prometheus = "=0.9.0"
rouille = "=3.6.2"
ruzstd = "*"
snap = "1"
tokio = { version = "=0.2.25", features = ["full"] }
tracing = "=0.1.44"
tracing-subscriber = "=0.2.25"
