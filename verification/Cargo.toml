[package]
name = "collab_rooms"
version = "0.1.0"
edition = "2021"
publish = false

[dependencies]
rand = "0.8"
axum = { version = "0.6", features = ["ws"] }
tokio = { version = "1", features = ["rt-multi-thread", "macros", "sync", "net"] }
tower-http = { version = "0.4", features = ["fs"] }
tracing-subscriber = "0.3"
serde = { version = "1", features = ["derive"] }
serde_json = "1"
