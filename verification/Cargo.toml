[package]
name = "ledger"
version = "0.1.0"
edition = "2021"
publish = false

[dependencies]
chrono = { version = "=0.4.45", features = ["serde"] }
actix-web = "=4.15.0"
serde = { version = "=1.0.229", features = ["derive"] }
