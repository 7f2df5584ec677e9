[package]
name = "cbstream"
version = "0.1.0"
edition = "2021"
publish = false

[dependencies]
base64 = "=0.22.1"
chrono = { version = "=0.4.45", default-features = false, features = ["clock"] }
regex = "=1.13.1"
sha2 = "=0.10.9"
serde = { version = "=1.0.229", features = ["derive"] }
serde_json = "=1.0.154"
reqwest = { version = "=0.12.28", default-features = false, features = ["blocking", "rustls-tls"] }
scopeguard = "=1.2.0"
signal-hook = "=0.3.18"
sysinfo = "=0.40.1"
tungstenite = { version = "=0.30.0", features = ["rustls-tls-webpki-roots"] }
