[package]
name = "world_wonders_api"
version = "0.1.0"
edition = "2021"
publish = false

[dependencies]
aide = { version = "=0.13.5", features = ["axum", "macros", "scalar"] }
axum = { version = "=0.7.9", features = ["macros"] }
axum-jsonschema = { version = "=0.8.0", features = ["aide"] }
axum-prometheus = "=0.7.0"
axum-valid = { version = "=0.20.0", default-features = false, features = ["aide", "basic", "garde"] }
config = { version = "=0.14.1", default-features = false, features = ["toml"] }
garde = { version = "=0.20.0", features = ["derive", "url"] }
rand = "=0.8.8"
schemars = "=0.8.22"
serde = { version = "=1.0.229", features = ["derive", "rc"] }
serde_json = "=1.0.154"
thiserror = "=1.0.69"
tokio = { version = "=1.54.1", features = ["full"] }
tower-http = { version = "=0.5.2", features = ["timeout", "trace"] }
tower_governor = "=0.4.3"
tracing = "=0.1.44"
tracing-subscriber = { version = "=0.3.23", features = ["env-filter"] }

[dev-dependencies]
chrono = "0.4"
clearurls = "*"
