[package]
name = "agent_desk"
version = "0.1.0"
edition = "2021"
publish = false

[dependencies]
uuid = { version = "*", features = ["v4"] }
serde = { version = "*", features = ["derive"] }
serde_json = "*"
serde_yaml = "*"
tokio = { version = "*", features = ["full"] }
tokio-stream = { version = "*", features = ["sync"] }
axum = "*"
tower-http = { version = "*", features = ["cors"] }
ureq = { version = "*", features = ["json"] }
reqwest = { version = "*", default-features = false, features = ["json", "rustls-tls"] }
base64 = "*"
hmac = "*"
sha2 = "*"
urlencoding = "*"
