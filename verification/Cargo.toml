[package]
name = "kubectl-watch"
version = "0.1.0"
edition = "2021"
publish = false

[dependencies]
anyhow = "=1.0.104"
clap = { version = "=4.6.7", features = ["derive"] }
colored = "=3.1.1"
crossterm = "=0.29.0"
futures = "=0.3.34"
k8s-openapi = { version = "=0.27.1", features = ["latest"] }
kube = { version = "=3.1.0", default-features = false, features = ["client", "runtime"] }
kube-core = "=3.1.0"
ratatui = "=0.30.2"
serde = { version = "=1.0.229", features = ["derive"] }
serde_json = "=1.0.154"
serde_yaml = "=0.9.34"
term_size = "=0.3.2"
terminal_size = "=0.4.4"
tokio = { version = "=1.54.1", features = ["full"] }
tracing = "=0.1.44"
tracing-subscriber = "=0.3.23"
