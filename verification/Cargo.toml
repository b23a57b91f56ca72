[package]
name = "route_guide"
version = "0.1.0"
edition = "2021"
publish = false

[dependencies]
async-stream = "0.2"
futures = "0.3"
prost = "0.6"
rand = "0.7"
serde = { version = "1", features = ["derive"] }
serde_json = "1"
tokio = { version = "0.2", features = ["macros", "rt-threaded", "stream", "sync", "time"] }
tonic = "0.2"
