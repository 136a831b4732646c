[package]
name = "sgroups"
version = "0.1.0"
edition = "2021"
publish = false

[dependencies]
chrono = "=0.4.45"
ldap3 = { version = "=0.12.1", default-features = false }
reqwest = { version = "=0.13.5", default-features = false }
rocket = { version = "=0.5.1", features = ["json", "secrets"] }
serde = { version = "=1.0.229", features = ["derive"] }
serde_json = "=1.0.151"
tokio = "=1.53.2"
