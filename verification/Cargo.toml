[package]
name = "boom"
version = "0.1.0"
edition = "2021"
publish = false

[dependencies]
flate2 = "*"
uuid = { version = "*", features = ["v4"] }
tokio = { version = "*", default-features = false, features = ["rt-multi-thread", "macros", "time", "signal", "sync"] }
mongodb = "*"
redis = { version = "*", default-features = false, features = ["tokio-comp", "streams"] }
apache-avro = "*"
serde = { version = "*", features = ["derive"] }
serde_json = "*"
serde_with = "*"
config = { version = "*", default-features = false, features = ["yaml"] }
lapin = "*"
tokio-executor-trait = "*"
tokio-reactor-trait = "*"
tokio-stream = { version = "*", default-features = false }
futures = "*"
futures-lite = "*"
bytes = "*"
base64 = "*"
rand = "*"
nix = { version = "*", features = ["signal"] }
serde_bytes = "*"
