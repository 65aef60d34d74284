[package]
name = "rust_pearl_stasis_bot"
version = "0.1.0"
edition = "2021"
publish = false

[dependencies]
anyhow = "1"
rand = "0.8"
uuid = { version = "1", features = ["v4"] }
chrono = "0.4"
serde = { version = "1", features = ["derive"] }
serde_json = "1"
tokio = { version = "1", features = ["full"] }
axum = "0.7"
tower-http = { version = "0.5", features = ["fs"] }
azalea = "*"
azalea-block = "*"
azalea-client = "*"
azalea-entity = "*"
azalea-inventory = "*"
azalea-protocol = "*"
azalea-registry = "*"
