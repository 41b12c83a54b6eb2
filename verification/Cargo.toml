[package]
name = "ds_free_api"
version = "0.1.0"
edition = "2021"
publish = false

[dependencies]
dashmap = "6"
futures = "0.3"
log = "0.4"
pin-project-lite = "0.2"
serde = { version = "1", features = ["derive"] }
serde_json = { version = "1", features = ["preserve_order"] }
thiserror = "2"
tokio = { version = "1", features = ["rt", "sync", "time"] }
