[package]
name = "ccgui_remote"
version = "0.1.0"
edition = "2021"
publish = false

[dependencies]
serde_json = "1"
uuid = { version = "1", features = ["v4"] }
serde = { version = "1", features = ["derive"] }
tokio = { version = "1", features = ["process", "time", "io-util", "rt"] }
rusqlite = { version = "0.32", features = ["bundled"] }
