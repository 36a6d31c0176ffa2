[package]
name = "asn_worker"
version = "0.1.0"
edition = "2021"
publish = false

[dependencies]
regex = "1"
chrono = { version = "0.4", default-features = false, features = ["clock", "std"] }
serde = { version = "1", features = ["derive"] }
serde_json = "1"
futures = "0.3"
async-trait = "0.1"
axum = { version = "*", default-features = false, features = ["json"] }
worker = { version = "*", features = ["http", "axum", "d1"] }
worker-macros = { version = "*", features = ["http"] }
sea-orm = { version = "*", default-features = false, features = ["macros"] }
reqwest = { version = "*", default-features = false }
tower-service = "0.3"
console_error_panic_hook = "0.1"
