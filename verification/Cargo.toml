[package]
name = "webspeak"
version = "0.1.0"
edition = "2021"
publish = false

[dependencies]
anyhow = "1"
audiopus = "0.2.0"
axum = "=0.7.9"
base64 = "=0.22.1"
clap = { version = "4", features = ["derive"] }
futures = "0.3"
num-traits = "0.2"
serde = { version = "1", features = ["derive"] }
serde_json = "1"
slog = "2"
time = "=0.2.27"
tokio = { version = "1", features = ["full"] }
tower-http = { version = "=0.6.11", features = ["cors"] }
tracing = "0.1"
tracing-subscriber = { version = "0.3", features = ["env-filter"] }
tsclientlib = { version = "=0.2.0", features = ["unstable"] }
tsproto = "=0.2.0"
tsproto-packets = "=0.1.0"
