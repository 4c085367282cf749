[package]
name = "splitwise_ynab"
version = "0.1.0"
edition = "2021"
publish = false

[dependencies]
anyhow = "1"
async-trait = "*"
aws-config = "*"
aws-sdk-dynamodb = "*"
aws-sdk-secretsmanager = "*"
aws-types = "*"
color-eyre = "*"
lambda_runtime = "*"
reqwest = { version = "*", default-features = false, features = ["json", "rustls-tls"] }
rusqlite = { version = "*", features = ["bundled"] }
serde = { version = "1", features = ["derive"] }
serde_dynamo = { version = "*", features = ["aws-sdk-dynamodb+1"] }
serde_json = "1"
tokio = { version = "1", features = ["macros", "rt-multi-thread", "sync"] }
tracing = "*"
