[package]
name = "arcade_hub"
version = "0.1.0"
edition = "2021"
publish = false

[dependencies]
async-graphql = "7"
hex = "0.4.3"
serde = { version = "1", features = ["derive"] }
serde_json = "1"
thiserror = "2"
