[package]
name = "deskmate"
version = "0.1.1"
edition = "2021"
publish = false

[dependencies]
chrono = "0.4"
url = "2"
semver = "1"
hex = "0.4"
sha2 = "0.10"
image = { version = "0.25", default-features = false, features = ["webp"] }
serde = { version = "1", features = ["derive"] }
serde_json = "1"
zip = { version = "2", default-features = false, features = ["deflate"] }
thiserror = "2"
rand = "0.9"
tokio = { version = "1", features = ["time", "sync", "rt"] }
futures-util = "0.3"
reqwest = { version = "0.12", default-features = false, features = ["rustls-tls", "stream"] }

[dev-dependencies]
tempfile = "3"
