[package]
name = "mcp-proxy"
version = "0.1.0"
edition = "2021"
publish = false

[dependencies]
anyhow = "=1.0.104"
axum = "=0.8.9"
chrono = { version = "=0.4.45", features = ["serde"] }
clap = { version = "=4.6.7", features = ["derive"] }
jpx-engine = "=0.4.2"
metrics = "=0.24.6"
metrics-exporter-prometheus = { version = "=0.18.3", default-features = false }
moka = { version = "=0.12.16", features = ["future"] }
notify = "=8.2.1"
notify-debouncer-mini = "=0.7.0"
opentelemetry = "=0.33.1"
opentelemetry-otlp = "=0.33.1"
opentelemetry_sdk = "=0.33.1"
schemars = "=1.2.3"
serde = { version = "=1.0.229", features = ["derive"] }
serde_json = "=1.0.154"
tokio = { version = "=1.54.1", features = ["full"] }
toml = "=1.1.8"
tower = { version = "=0.5.3", features = ["full"] }
tower-mcp = { version = "=0.25.0", features = ["http", "http-client", "jwks", "oauth", "proxy", "websocket"] }
tower-mcp-types = "=0.25.0"
tower-resilience = { version = "=0.13.0", features = ["circuitbreaker", "hedge", "ratelimiter"] }
tracing = "=0.1.44"
tracing-opentelemetry = "=0.34.0"
tracing-subscriber = { version = "=0.3.23", features = ["env-filter", "json"] }
