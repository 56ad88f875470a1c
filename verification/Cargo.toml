[package]
name = "job_event_log"
version = "0.1.0"
edition = "2021"
publish = false

[dependencies]
anyhow = "=1.0.104"
async-ssh2-tokio = "0.8"
chrono = { version = "=0.4.45", features = ["serde"] }
glob = "=0.3.4"
process_mining = "=0.3.25"
serde = { version = "=1.0.229", features = ["derive"] }
serde_json = "=1.0.154"
structdiff = { version = "=0.7.3", features = ["serde", "debug_diffs"] }
tokio = { version = "=1.54.1", features = ["full"] }
