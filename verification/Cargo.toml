[package]
name = "chud"
version = "0.1.0"
edition = "2021"
publish = false

[dependencies]
axum = { version = "0.7", features = ["ws"] }
futures-util = "0.3"
native-tls = { version = "0.2", features = ["vendored"] }
rdev = "0.5"
reqwest = { version = "0.12", default-features = false, features = ["json", "rustls-tls"] }
serde = { version = "1", features = ["derive"] }
serde_json = "1"
sha2 = "0.10"
tokio = { version = "1", features = ["macros", "rt", "sync", "time"] }
tokio-tungstenite = { version = "0.24", features = ["native-tls-vendored"] }
windows = { version = "0.58", features = ["Win32_Foundation", "Win32_System_Registry"] }
