[package]
name = "rchronos"
version = "0.1.0"
edition = "2021"
publish = false

[dependencies]
chrono = "0.4"
httpdate = "1"
serde = { version = "1", features = ["derive"] }
serde_json = "1"
toml = "0.8"
tokio = { version = "1", features = ["rt-multi-thread", "macros", "sync", "time", "net"] }
axum = "0.8"
reqwest = { version = "0.12", default-features = false, features = ["blocking", "rustls-tls"] }
tracing = "0.1"
tracing-subscriber = "0.3"
tracing-appender = "0.2"
thiserror = "2"
windows = { version = "*", features = ["Win32_Foundation", "Win32_Security", "Win32_System_SystemInformation", "Win32_System_Threading", "Win32_System_Registry", "Win32_System_EventLog"] }
windows-service = "*"
