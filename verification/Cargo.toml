[package]
name = "claw-rag-service"
version = "0.1.0"
edition = "2021"
publish = false

[dependencies]
qdrant-client = { version = "1", default-features = false, features = ["serde"] }
reqwest = { version = "0.12", default-features = false, features = ["json"] }
rusqlite = { version = "0.32", features = ["bundled"] }
serde = { version = "1", features = ["derive"] }
serde_json = "1"
