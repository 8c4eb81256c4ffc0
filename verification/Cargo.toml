[package]
name = "upsert_scheduler"
version = "0.1.0"
edition = "2021"
publish = false

[dependencies]
chrono = { version = "0.4", default-features = false, features = ["std"] }
crossbeam = "0.8"
futures-util = "0.3"
log = "0.4"
serde_json = "1"
tokio = { version = "1", features = ["macros", "rt", "sync", "time"] }
