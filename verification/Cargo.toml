[package]
name = "portus"
version = "0.1.0"
edition = "2021"
publish = false

[dependencies]
vte = "0.15"
serde_json = "1"
yaml-rust2 = "*"
uuid = { version = "1", features = ["v4"] }
dotenvy = "0.15"
serde = { version = "1", features = ["derive"] }
thiserror = "2"
libc = "0.2"
sysinfo = "*"
listeners = "*"
bollard = "*"
tokio = { version = "1", features = ["rt", "rt-multi-thread", "macros", "sync", "time"] }
