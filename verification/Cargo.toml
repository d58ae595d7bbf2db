[package]
name = "watchdog"
version = "0.1.0"
edition = "2021"
publish = false

[dependencies]
addr = "=0.15.6"
psl2 = "=0.1.37"
url = "=2.5.8"
ipnet = "=2.12.2"
subtle = "=2.6.1"
base64 = "=0.22.1"
data-encoding = "=2.11.1"
hmac-sha256 = "=1.1.15"
rand = "=0.9.5"
jiff = "=0.2.39"
cardinality-estimator-safe = { version = "=4.0.3", features = ["with_serde"] }
parking_lot = "=0.12.5"
prometheus = { version = "=0.14.0", features = ["process"] }
axum = "=0.8.9"
tokio = { version = "=1.54.1", features = ["full"] }
serde = { version = "=1.0.229", features = ["derive"] }
figment = { version = "=0.10.19", features = ["toml", "env"] }
toml = "=0.8.23"
thiserror = "=2.0.21"
anyhow = "=1.0.104"
tower-http = { version = "=0.6.11", features = ["cors", "trace"] }
tracing = "=0.1.44"
tracing-subscriber = { version = "=0.3.23", features = ["env-filter"] }
hyper = { version = "=1.12.0", features = ["server", "http1"] }
hyper-util = { version = "=0.1.21", features = ["tokio", "service"] }
tokio-io-timeout = "=1.2.1"
tokio-util = "=0.7.20"
uuid = { version = "=1.29.0", features = ["v4"] }
mime_guess = "=2.0.5"
postcard = { version = "=1.1.3", features = ["use-std"] }
