[package]
name = "win_widgets"
version = "0.1.0"
edition = "2021"
publish = false

[dependencies]
url = "=2.5.8"
mime_guess = "=2.0.5"
serde = { version = "=1.0.229", features = ["derive"] }
serde_json = "=1.0.154"
zip = "=9.2.2"
uuid = { version = "=1.29.1", features = ["v4"] }
walkdir = "=2.5.0"
chrono = "=0.4.45"
reqwest = { version = "=0.12.28", default-features = false, features = ["json", "rustls-tls"] }
tokio = { version = "=1.54.1", features = ["time"] }
sysinfo = "=0.40.1"
