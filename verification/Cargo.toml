[package]
name = "pomodoro"
version = "0.1.0"
edition = "2021"
publish = false

[dependencies]
uuid = { version = "=1.29.0", features = ["v4"] }
serde = { version = "=1.0.229", features = ["derive"] }
serde_json = "=1.0.154"
tauri = { version = "=2.12.5", default-features = false, features = ["wry"] }
jni = "=0.21.1"
