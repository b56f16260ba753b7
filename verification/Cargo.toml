[package]
name = "arithmetization"
version = "0.1.0"
edition = "2021"
publish = false

[dependencies]
ark-ff = "=0.4.2"
ark-poly = "=0.4.2"
ark-serialize = "=0.4.2"
ark-pallas = "0.4"
serde = { version = "1", features = ["derive"] }
serde_with = "3"
anyhow = "1"
