[package]
name = "jira_tracker"
version = "0.1.0"
edition = "2021"
publish = false

[dependencies]
indexmap = "2"
axum = "0.6"
tokio = { version = "1", features = ["full"] }
tower-http = { version = "0.4", features = ["trace", "normalize-path"] }
tracing = "0.1"
tracing-subscriber = "0.3"
figment = { version = "0.10", features = ["env"] }
shellexpand = "3"
serde = { version = "1", features = ["derive"] }
serde_json = "1"
reqwest = { version = "0.11", default-features = false, features = ["json"] }
notify = "6"
futures = "0.3"
base64 = "0.22"
chrono = "0.4"
