[package]
name = "solaredge_mqtt"
version = "0.1.0"
edition = "2021"
publish = false

[dependencies]
anyhow = "1"
chrono = "0.4"
clap = { version = "4", features = ["derive"] }
rumqttc = { version = "0.24", default-features = false }
serde = { version = "1", features = ["derive"] }
serde_yaml = "0.9"
tokio = { version = "1", features = ["rt-multi-thread", "macros", "signal", "time", "net"] }
tokio-modbus = { version = "*", default-features = false, features = ["tcp"] }
tracing = "0.1"
tracing-subscriber = { version = "0.3", features = ["env-filter"] }
