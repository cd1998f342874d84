[package]
name = "simple_gh"
version = "0.1.0"
edition = "2021"
publish = false

[dependencies]
async-trait = "=0.1.92"
axum = "=0.6.20"
byte-unit = { version = "=4.0.19", default-features = false, features = ["std"] }
chrono = "=0.4.45"
env_logger = "=0.10.2"
figment = { version = "=0.10.19", features = ["env"] }
futures-util = "=0.3.34"
is-terminal = "=0.4.17"
log = "=0.4.34"
once_cell = "=1.21.4"
pin-project = "=1.1.13"
reqwest = { version = "=0.11.27", default-features = false, features = ["rustls-tls"] }
rocket = "=0.5.2"
serde = { version = "=1.0.229", features = ["derive"] }
serde_urlencoded = "=0.7.1"
tokio = { version = "=1.54.1", features = ["full"] }
tokio-util = "=0.7.20"
tower = "=0.4.13"
tower-http = { version = "=0.4.4", features = ["validate-request"] }
tracing = "=0.1.44"
tracing-subscriber = "=0.3.23"
yansi = "=0.5.1"
