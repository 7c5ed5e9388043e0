[package]
name = "ragmcp"
version = "0.1.0"
edition = "2021"
publish = false

[dependencies]
sha2 = "=0.10.9"
uuid = { version = "=1.27.0", features = ["v4"] }
lru = "=0.18.5"
quick-xml = "=0.42.0"
pulldown-cmark = "=0.13.4"
serde_yaml_ng = "=0.10.0"
serde_json = "*"
serde = { version = "*", features = ["derive"] }
toml = "*"
chrono = "*"
rusqlite = { version = "*", features = ["bundled"] }
tokio = { version = "*", features = ["full"] }
reqwest = { version = "*", default-features = false, features = ["json", "rustls-tls"] }
notify = "*"
walkdir = "*"
dotenv = "*"
log = "*"
env_logger = "*"
