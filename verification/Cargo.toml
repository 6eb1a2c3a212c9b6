[package]
name = "mdmd"
version = "0.1.0"
edition = "2021"
publish = false

[dependencies]
axum = "=0.8.9"
clap = { version = "=4.6.7", features = ["derive"] }
comrak = { version = "=0.57.0", default-features = false }
crossterm = "=0.29.0"
httpdate = "=1.0.3"
pulldown-cmark = { version = "=0.13.5", default-features = false }
ratatui = "=0.30.2"
serde_json = "=1.0.154"
syntect = { version = "=5.3.0", default-features = false, features = ["default-fancy"] }
tokio = { version = "=1.54.1", features = ["full"] }
tower-http = { version = "=0.7.1", features = ["compression-gzip", "compression-br"] }
