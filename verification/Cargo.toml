[package]
name = "pryx_host"
version = "0.1.0"
edition = "2021"
publish = false

[dependencies]
libc = "0.2"
rand = "0.8"
tokio = { version = "1", features = ["full"] }
axum = { version = "0.7", features = ["ws"] }
tower-http = { version = "0.5", features = ["fs"] }
mime_guess = "2"
dirs = "5"
log = "0.4"
anyhow = "1"
futures = "0.3"
serde = { version = "1", features = ["derive"] }
serde_json = "1"
