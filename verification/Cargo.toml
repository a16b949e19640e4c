[package]
name = "just_tile"
version = "0.1.0"
edition = "2021"
publish = false

[dependencies]
aws-config = "1"
aws-credential-types = "1"
aws-sigv4 = "1"
axum = "0.8"
futures = "0.3"
http = "0.2"
image = { version = "0.25", default-features = false, features = ["png"] }
proj4rs = "0.1"
reqwest = { version = "0.12", default-features = false, features = ["rustls-tls"] }
serde = { version = "1", features = ["derive"] }
serde_json = "1"
tiff = "*"
tokio = { version = "1", features = ["full"] }
tracing = "0.1"
tracing-subscriber = { version = "0.3", features = ["env-filter"] }
url = "2"
