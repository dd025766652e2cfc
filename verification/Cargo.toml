[package]
name = "gatewayapi"
version = "0.1.0"
edition = "2021"
publish = false

[dependencies]
anyhow = "*"
async-trait = "*"
axum = "*"
base64 = "*"
chrono = { version = "*", default-features = false, features = ["clock"] }
dotenvy = "*"
futures = "*"
metrics = "*"
metrics-exporter-prometheus = { version = "*", default-features = false }
reqwest = { version = "*", default-features = false, features = ["json"] }
serde = { version = "*", features = ["derive"] }
serde_json = "*"
serde_yaml = "*"
tokio = { version = "*", features = ["macros", "rt-multi-thread", "signal", "time"] }
tower = { version = "*", features = ["util"] }
tower-http = { version = "*", features = ["cors", "request-id", "timeout"] }
tracing = "*"
tracing-subscriber = { version = "*", features = ["env-filter", "fmt"] }
utoipa = { version = "*", features = ["axum_extras"] }
utoipa-swagger-ui = { version = "*", features = ["axum"] }
validator = { version = "*", features = ["derive"] }
