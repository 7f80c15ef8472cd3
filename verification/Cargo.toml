[package]
name = "harnesssphere"
version = "0.1.0"
edition = "2021"
publish = false

[dependencies]
serde_json = "1"
serde = { version = "1", features = ["derive"] }
toml = "0.8"
anyhow = "1"
thiserror = "2"
tokio = { version = "1", features = ["full"] }
async-trait = "0.1"
futures = "0.3"
sysinfo = "0.33"
tracing = "0.1"
tracing-subscriber = { version = "0.3", features = ["env-filter", "fmt"] }
opentelemetry = { version = "*", default-features = false, features = ["metrics", "trace", "logs"] }
opentelemetry_sdk = { version = "*", default-features = false, features = ["metrics", "trace", "logs", "rt-tokio"] }
opentelemetry-otlp = { version = "*", default-features = false, features = ["grpc-tonic", "metrics"] }
opentelemetry-proto = { version = "*", default-features = false, features = ["gen-tonic", "metrics", "trace", "logs"] }
tonic = "*"
