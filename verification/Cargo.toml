[package]
name = "temporal_agent_rs"
version = "0.1.0"
edition = "2021"

[dependencies]
serde = { version = "=1.0.229", features = ["derive"] }
serde_json = "=1.0.154"
autoagents-llm = { version = "=0.3.7", features = ["optim"] }
autoagents-core = "=0.3.7"
temporalio-sdk = "=0.4.0"
temporalio-client = "=0.4.0"
temporalio-macros = "=0.4.0"
temporalio-sdk-core = "=0.4.0"
thiserror = "=2.0.21"
anyhow = "=1.0.104"
tokio = { version = "=1.54.1", features = ["sync"] }
tracing = "=0.1.44"
