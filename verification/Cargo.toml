[package]
name = "lovense_intiface_bridge"
version = "0.1.0"
edition = "2021"
publish = false

[dependencies]
serde_json = "1"
serde = { version = "1", features = ["derive"] }
serde_urlencoded = "0.7"
anyhow = "1"
axum = "0.8"
axum-server = { version = "0.7", default-features = false, features = ["tls-rustls-no-provider"] }
buttplug_client = "*"
buttplug_core = "*"
buttplug_transport_websocket_tungstenite = "*"
futures = "0.3"
rcgen = { version = "0.13", default-features = false, features = ["crypto", "pem", "ring"] }
rustls = { version = "0.23", default-features = false, features = ["ring", "std", "tls12", "logging"] }
tokio = { version = "1", features = ["full"] }
tower = "0.5"
tower-http = { version = "0.6", features = ["cors"] }

[dev-dependencies]
serde_json = "1"
