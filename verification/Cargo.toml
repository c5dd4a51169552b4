[package]
name = "metrics_proxy"
version = "0.1.0"
edition = "2021"
publish = false

[dependencies]
regex = "1"
url = "2"
rustls-pemfile = "1"
serde = { version = "1", features = ["derive"] }
serde_yaml = "0.9"
duration-string = "*"
reqwest = { version = "0.11", default-features = false }
axum = "0.6"
hyper = { version = "0.14", features = ["full"] }
hyper-rustls = { version = "0.24", features = ["acceptor"] }
rustls = "0.21"
tower = "0.4"
tower-http = { version = "0.4", features = ["timeout"] }
