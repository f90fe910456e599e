[package]
name = "noteplan_organizer"
version = "0.1.0"
edition = "2021"
publish = false

[dependencies]
chrono = { version = "=0.4.45", default-features = false, features = ["std", "clock"] }
walkdir = "=2.5.0"
serde = { version = "=1.0.229", features = ["derive"] }
serde_json = "=1.0.154"
notify = "*"
notify-debouncer-mini = "*"
rmcp = { version = "*", features = ["client", "transport-child-process"] }
tokio = { version = "*", features = ["rt-multi-thread", "process"] }
