[package]
name = "agent_connectors"
version = "0.1.0"
edition = "2021"
publish = false

[dependencies]
anyhow = "1"
dirs = "5"
dotenvy = "0.15"
rusqlite = { version = "0.32", features = ["bundled"] }
serde_json = "1"
tracing = "0.1"
walkdir = "2"
