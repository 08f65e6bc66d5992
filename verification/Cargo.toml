[package]
name = "terrasync"
version = "0.1.0"
edition = "2021"
publish = false

[dependencies]
tokio = { version = "=1.53.2", features = ["full"] }
clap = { version = "=4.6.7", features = ["derive"] }
nfs3_client = { version = "=0.9.0", features = ["tokio"] }
rusqlite = { version = "=0.40.2", features = ["bundled"] }
chrono = "=0.4.45"
uuid = { version = "=1.27.0", features = ["v4"] }
