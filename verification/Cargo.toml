[package]
name = "notes_orm"
version = "0.1.0"
edition = "2021"
publish = false

[dependencies]
uuid = { version = "*", features = ["v4"] }
serde = { version = "*", features = ["derive"] }
serde_json = "*"
aws-config = "*"
aws-sdk-dynamodb = "*"
tokio = { version = "*", features = ["rt", "rt-multi-thread", "sync", "macros"] }
weaviate-community = "*"
anyhow = "*"
thiserror = "*"
dotenvy = "*"
env_logger = "*"
