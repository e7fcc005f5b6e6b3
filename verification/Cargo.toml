[package]
name = "remarkable_server"
version = "0.1.0"
edition = "2021"
publish = false

[dependencies]
async-trait = "=0.1.92"
axum = { version = "=0.8.9", features = ["ws"] }
axum-server = { version = "=0.7.3", default-features = false, features = ["tls-rustls-no-provider"] }
base64 = "=0.22.1"
bytes = "=1.12.1"
chrono = { version = "=0.4.45", features = ["serde"] }
diffy = "=0.4.2"
epub-builder = { version = "=0.8.3", default-features = false, features = ["zip-library"] }
futures-util = "=0.3.34"
hmac = "=0.12.1"
parking_lot = "=0.12.5"
rand = "=0.8.8"
reqwest = { version = "=0.12.28", default-features = false, features = ["json", "rustls-tls", "stream"] }
rumqttd = { version = "=0.19.0", default-features = false, features = ["websocket"] }
rusqlite = { version = "=0.32.1", features = ["bundled"] }
rustls = { version = "=0.23.46", default-features = false, features = ["ring", "std"] }
serde = { version = "=1.0.229", features = ["derive"] }
serde_json = "=1.0.154"
sha1 = "=0.10.7"
sha2 = "=0.10.9"
tempfile = "=3.27.0"
thiserror = "=2.0.21"
tokio = { version = "=1.54.1", features = ["full"] }
tokio-rustls = { version = "=0.26.6", default-features = false, features = ["ring"] }
tower-http = { version = "=0.6.11", features = ["trace"] }
tracing = "=0.1.44"
tracing-subscriber = { version = "=0.3.23", features = ["env-filter"] }
urlencoding = "=2.1.3"
uuid = { version = "=1.29.0", features = ["v4"] }
