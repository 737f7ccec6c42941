[package]
name = "codegraph_server"
version = "0.1.0"
edition = "2021"
publish = false

[dependencies]
lru = "*"
dashmap = "*"
serde = { version = "*", features = ["derive"] }
serde_json = "*"
thiserror = "*"
tokio = { version = "*", features = ["full"] }
tower-lsp = "*"
notify = "*"
tracing = "*"
