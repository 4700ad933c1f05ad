[package]
name = "etcd_store"
version = "0.1.0"
edition = "2021"
publish = false

[dependencies]
ahash = "=0.8.12"
async-trait = "0.1"
bytes = "=1.12.1"
etcd-client = { version = "0.8", features = ["tls"] }
log = "0.4"
tokio = { version = "1", features = ["full"] }
