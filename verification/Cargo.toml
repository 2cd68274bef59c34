[package]
name = "datacollect"
version = "0.1.0"
edition = "2021"
publish = false

[dependencies]
anyhow = "1"
async-trait = "0.1"
chrono = { version = "0.4", features = ["serde"] }
erased-serde = "0.3"
futures = "0.3"
kuchiki = "0.8"
regex = "1"
reqwest = { version = "0.11", features = ["cookies", "json"] }
serde = { version = "1", features = ["derive"] }
serde_json = "1"
serde_with = "1"
structopt = "0.3"
tokio = { version = "1", features = ["full"] }
