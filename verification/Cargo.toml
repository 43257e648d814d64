[package]
name = "sparql_results"
version = "0.1.0"
edition = "2021"
publish = false

[dependencies]
async-trait = "=0.1.92"
indexmap = "=2.14.2"
quick-xml = { version = "=0.38.4", features = ["async-tokio"] }
serde = { version = "=1.0.229", features = ["derive"] }
serde_json = "=1.0.154"
thiserror = "=2.0.21"
tokio = { version = "=1.54.1", features = ["io-util", "rt", "macros", "sync", "time"] }
