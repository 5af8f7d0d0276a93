[package]
name = "importer_rebike"
version = "0.1.0"
edition = "2021"
publish = false

[dependencies]
chrono = "=0.4.45"
config = { version = "=0.14.1", default-features = false }
cuid = "=1.3.3"
mongodb = { version = "=3.9.1", features = ["sync"] }
quick-xml = "0.38"
regex = "=1.13.1"
reqwest = { version = "=0.12.28", default-features = false, features = ["blocking", "rustls-tls"] }
serde = { version = "=1.0.229", features = ["derive"] }
