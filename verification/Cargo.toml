[package]
name = "parameter_store_executor"
version = "0.1.0"
edition = "2021"
publish = false

[dependencies]
clap = { version = "3.2", features = ["cargo"] }
tokio = { version = "1", features = ["macros", "rt-multi-thread"] }
tokio-stream = "0.1"
aws-config = "0.55"
aws-sdk-ssm = "0.28"
