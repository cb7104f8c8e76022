[package]
name = "paimon_route"
version = "0.1.0"
edition = "2021"
publish = false

[dependencies]
paimon = { version = "=0.4.0", default-features = false, features = ["storage-memory", "storage-fs"] }
arrow-array = "=58.4.1"
serde = { version = "=1.0.229", features = ["derive"] }
serde_json = "=1.0.154"
tokio = { version = "=1.54.1", features = ["sync"] }

[dev-dependencies]
arrow-schema = "=58.4.1"
