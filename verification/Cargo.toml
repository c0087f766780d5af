[package]
name = "kufu"
version = "0.1.0"
edition = "2021"
publish = false

[dependencies]
sled = "0.34"
serde = { version = "1", features = ["derive"] }
serde_yaml = "0.9"
thiserror = "1"
clap = { version = "4", features = ["derive"] }
fuser = { version = "0.12", default-features = false }
kube = { version = "0.80", default-features = false, features = ["client", "rustls-tls", "runtime"] }
k8s-openapi = { version = "0.17", features = ["v1_26"] }
tokio = { version = "1", features = ["full"] }
futures = "0.3"
tracing = "0.1"
tracing-subscriber = "0.3"
async-trait = "0.1"
lazy_static = "1"
