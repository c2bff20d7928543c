[package]
name = "scd"
version = "0.1.0"
edition = "2021"
publish = false

[dependencies]
anyhow = "=1.0.104"
aws-config = "=1.12.0"
aws-sdk-ecr = "=1.132.0"
aws-sdk-iam = "=1.128.0"
aws-sdk-s3 = "=1.152.0"
aws-sdk-servicecatalog = "=1.116.0"
aws-sdk-sts = "=1.119.0"
aws-types = "=1.6.0"
clap = { version = "=4.6.7", features = ["derive"] }
clap_complete = "=4.6.11"
rmcp = { version = "=3.7.0", features = ["server", "transport-io", "macros"] }
serde = { version = "=1.0.229", features = ["derive"] }
serde_json = "=1.0.154"
serde_yaml = "=0.9.34"
time = { version = "=0.3.55", features = ["formatting"] }
tokio = { version = "=1.54.1", features = ["macros", "rt-multi-thread", "process", "time"] }
