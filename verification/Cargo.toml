[package]
name = "person_registry"
version = "0.1.0"
edition = "2021"
publish = false

[dependencies]
actix-web = { version = "=1.0.9", default-features = false }
actix-web-httpauth = "=0.3.2"
chrono = "=0.4.19"
lazy_static = "=1.5.1"
serde = { version = "=1.0.229", features = ["derive"] }
serde_derive = "=1.0.229"
tera = { version = "=1.20.1", default-features = false }
