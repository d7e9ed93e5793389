[package]
name = "lod_core"
version = "0.1.0"
edition = "2021"
publish = false

[dependencies]
rio_api = "0.8"
rio_turtle = "0.8"
oxiri = "0.2"
oxrdf = "0.3"
oxttl = "0.2"
oxrdfxml = "0.2"
serde = { version = "1", features = ["derive"] }
serde_json = "1"
serde_yaml = "0.9"
csv = "1"
thiserror = "2"
anyhow = "1"
clap = { version = "4", features = ["derive"] }
axum = "0.8"
tokio = { version = "1", features = ["macros", "rt-multi-thread", "net"] }
tower-http = { version = "0.6", features = ["cors"] }
tracing = "0.1"
tracing-subscriber = { version = "0.3", features = ["env-filter"] }
