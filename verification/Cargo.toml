[package]
name = "alert_core"
version = "0.1.0"
edition = "2021"
publish = false

[dependencies]
chrono = "*"
csv = "*"
dashmap = "*"
hashbrown = "*"
lazy_static = "*"
linked-hash-map = "*"
num_cpus = "*"
regex = "*"
serde_json = "*"
termcolor = "*"
tokio = { version = "*", features = ["rt-multi-thread"] }
