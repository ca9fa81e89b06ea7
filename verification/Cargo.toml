[package]
name = "open-telemetry-exporter"
version = "0.1.0"
edition = "2021"
publish = false

[dependencies]
serde = { version = "1", features = ["derive"] }
serde_yaml = "0.9"
glob = "0.3"
opentelemetry = "*"
opentelemetry-otlp = "*"
opentelemetry_sdk = "*"
sysinfo = "*"
tokio = { version = "1", features = ["macros", "rt", "time"] }
windows-service = "*"
