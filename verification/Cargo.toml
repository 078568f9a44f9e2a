[package]
name = "literary_engine"
version = "0.1.0"
edition = "2021"
publish = false

[dependencies]
sha2 = "0.10"
serde = { version = "1", features = ["derive"] }
serde_json = "1"
zip = "2"
quick-xml = "*"
pdf-extract = "*"
lopdf = "*"
chrono = "0.4"
reqwest = { version = "0.12", default-features = false, features = ["blocking", "json", "rustls-tls"] }
uuid = { version = "1", features = ["v4", "serde"] }
thiserror = "*"
