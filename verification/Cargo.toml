[package]
name = "crawl_core"
version = "0.1.0"
edition = "2021"
publish = false

[dependencies]
cozo = { version = "=0.7.6", default-features = false, features = ["graph-algo"] }
scylla = "=0.13.2"
fred = "=9.4.0"
reqwest = { version = "=0.12.28", default-features = false, features = ["json"] }
tokio = { version = "1", features = ["full"] }
futures = "0.3"
serde = { version = "1", features = ["derive"] }
serde_json = "1"
regex = "1"
