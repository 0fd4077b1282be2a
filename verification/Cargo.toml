[package]
name = "tachyon"
version = "0.1.0"
edition = "2021"
publish = false

[dependencies]
arc-swap = "1"
clap = { version = "4", features = ["derive"] }
http-body-util = "0.1"
hyper = { version = "1", features = ["http1", "server", "client"] }
hyper-util = { version = "0.1", features = ["client", "client-legacy", "http1", "server", "service", "tokio"] }
moka = { version = "0.12", features = ["future"] }
notify = "8"
redis = { version = "0.27", features = ["aio", "tokio-comp", "connection-manager", "script"] }
serde = { version = "1", features = ["derive"] }
tokio = { version = "1", features = ["full"] }
tokio-rustls = { version = "0.26", default-features = false, features = ["ring", "tls12", "logging"] }
toml = "0.8"
tower = { version = "0.5", features = ["util"] }
