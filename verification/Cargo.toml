[package]
name = "agent_harness"
version = "0.1.0"
edition = "2021"
publish = false

[dependencies]
bollard = "0.19"
futures-util = "0.3"
serde_json = "1"
tar = "0.4"
tokio = { version = "1", features = ["rt-multi-thread"] }
