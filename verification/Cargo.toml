[package]
name = "wield"
version = "0.1.0"
edition = "2021"
publish = false

[dependencies]
fuzzy-matcher = "=0.3.7"
uuid = { version = "=1.29.0", features = ["v4"] }
zbus_xml = "=5.2.1"
zbus = "=5.19.0"
ashpd = { version = "=0.13.13", features = ["screenshot", "inhibit", "global_shortcuts"] }
tokio = { version = "=1.54.1", features = ["process", "sync", "time", "macros", "rt", "rt-multi-thread", "io-util"] }
tokio-util = "=0.7.20"
async-trait = "=0.1.92"
futures-util = "=0.3.34"
serde = { version = "=1.0.229", features = ["derive"] }
serde_json = "=1.0.154"
thiserror = "=2.0.21"
url = "=2.5.8"
tempfile = "=3.27.0"
tracing = "=0.1.44"
tracing-subscriber = { version = "=0.3.23", features = ["env-filter"] }
tracing-appender = "=0.2.5"
