[package]
name = "responses-bridge"
version = "0.1.0"
edition = "2021"
publish = false

[dependencies]
async-stream = "0.3"
bytes = "1"
chrono = { version = "0.4", default-features = false, features = ["clock", "std"] }
futures = "0.3"
serde_json = "1"
tokio = { version = "1", features = ["macros", "rt"] }
uuid = { version = "1", features = ["v4"] }
