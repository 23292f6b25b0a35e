[package]
name = "food_journal"
version = "0.1.0"
edition = "2021"
publish = false

[dependencies]
anyhow = "=1.0.104"
heed = "=0.22.1"
jiff = "=0.2.38"
oxhttp = "=0.2.7"
serde = { version = "=1.0.229", features = ["derive"] }
serde_json = "=1.0.154"
