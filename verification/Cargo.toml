[package]
name = "packet_router"
version = "0.1.0"
edition = "2021"
publish = false

[dependencies]
prost = "0.13"
uuid = { version = "1", features = ["v4"] }
chrono = { version = "0.4", default-features = false, features = ["clock", "std"] }
base64 = "0.21"
tokio = { version = "1", features = ["rt-multi-thread", "macros", "sync", "time", "net", "io-util"] }
tokio-serial = { version = "5.4", default-features = false }
serialport = { version = "4", default-features = false }
serde = { version = "1", features = ["derive"] }
serde_json = "1"
tracing = "0.1"
